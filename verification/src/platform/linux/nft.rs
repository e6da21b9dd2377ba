//! The capture of packets: firewall rules that lead outgoing traffic into a queue, from
//! which `nfqws` reads it.
//!
//! The engine captures nothing itself: the rules come up before it and go down after it.
//! Every rule carries `bypass` (for iptables: `--queue-bypass`), so that packets pass by
//! the queue while no engine reads it. The number of the queue is that of the engine.
use vstd::prelude::*;

use crate::script::{chain, excuse, may_run, must_run, Invocation, OnFail, Step};
use crate::text::{ascii_lowered, cat3, decimal_text, occurs, join, replace, same, strings};

verus! {

use crate::script::{excused, may, must, script, succeeds, InvocationView, StepView};
use crate::text::{contains, decimal, joined, lowered, replaced, texts};

/// The table that holds the rules. It is taken down as a whole, so that no chain and no
/// rule stays.
pub const NFT_TABLE: &'static str = "zaprust";

/// The iptables chain that holds the rules (in the table `mangle`). It can be taken down
/// without knowing which ports its rules name.
pub const IPT_CHAIN: &'static str = "ZAPRUST";

/// A firewall that the machine has.
#[derive(Clone, Copy, Debug)]
pub enum Backend {
    /// Native nftables.
    Nft,
    /// iptables, under the name of its program.
    Iptables(&'static str),
}

/// A firewall as a mathematical value: the name of the iptables program, if it is one.
pub open spec fn ipt(b: Backend) -> Option<Seq<char>> {
    match b {
        Backend::Nft => None,
        Backend::Iptables(p) => Some(p@),
    }
}

/// The label of a firewall.
pub open spec fn label_of(b: Option<Seq<char>>) -> Seq<char> {
    match b {
        None => "nftables (nft)"@,
        Some(p) => "iptables ("@ + p + ")"@,
    }
}

impl Backend {
    /// A human-readable label.
    pub fn label(self) -> (r: String)
        ensures
            r@ == label_of(ipt(self)),
    {
        match self {
            Backend::Nft => "nftables (nft)".to_owned(),
            Backend::Iptables(p) => cat3("iptables (", p, ")"),
        }
    }
}

// ── Which firewall there is ─────────────────────────────────────────────────

/// What is to be done to find out which firewall there is.
#[derive(Debug)]
pub enum Detection {
    /// Run this command, and add whether it succeeded to the outcomes.
    Probe(Invocation),
    /// This one is there.
    Found(Backend),
    /// There is none.
    Absent,
}

/// The programs of iptables, in the order in which they are tried.
pub open spec fn ipt_programs() -> Seq<Seq<char>> {
    seq!["iptables-nft"@, "iptables-legacy"@, "iptables"@]
}

/// The command that asks the firewall number `i`: first nftables, then each iptables.
pub open spec fn probe_command(i: int) -> InvocationView {
    if i == 0 {
        InvocationView { program: "nft"@, args: seq!["list"@, "ruleset"@] }
    } else {
        InvocationView { program: ipt_programs()[i - 1], args: seq!["-S"@] }
    }
}

/// The number of the first firewall that answered, among the outcomes so far.
pub open spec fn first_success(outcomes: Seq<bool>) -> Option<int>
    decreases outcomes.len(),
{
    if outcomes.len() == 0 {
        None
    } else if outcomes[0] {
        Some(0)
    } else {
        match first_success(outcomes.skip(1)) {
            Some(i) => Some(i + 1),
            None => None,
        }
    }
}

/// The iptables program at a position of the list.
fn ipt_program(i: usize) -> (r: &'static str)
    requires
        i < 3,
    ensures
        r@ == ipt_programs()[i as int],
{
    if i == 0 {
        "iptables-nft"
    } else if i == 1 {
        "iptables-legacy"
    } else {
        "iptables"
    }
}

/// Finds out which firewall there is: native nftables first, then the iptables variants.
/// `outcomes` says which of the commands asked for so far succeeded.
pub fn detect(outcomes: &[bool]) -> (r: Detection)
    ensures
        match first_success(outcomes@.take(if outcomes@.len() < 4 {
            outcomes@.len() as int
        } else {
            4
        })) {
            Some(i) => r matches Detection::Found(b) && ipt(b) == (if i == 0 {
                None
            } else {
                Some(ipt_programs()[i - 1])
            }),
            None => if outcomes@.len() < 4 {
                r matches Detection::Probe(c) && c@ == probe_command(outcomes@.len() as int)
            } else {
                r is Absent
            },
        },
{
    let n: usize = if outcomes.len() < 4 {
        outcomes.len()
    } else {
        4
    };
    let ghost seen = outcomes@.take(n as int);
    let mut i: usize = 0;
    assert(seen.skip(0) =~= seen);
    while i < n
        invariant
            i <= n <= 4,
            n <= outcomes@.len(),
            seen == outcomes@.take(n as int),
            n == (if outcomes@.len() < 4 {
                outcomes@.len() as int
            } else {
                4
            }),
            first_success(seen) == (match first_success(seen.skip(i as int)) {
                Some(k) => Some(k + i),
                None => None,
            }),
        decreases n - i,
    {
        assert(seen.skip(i as int)[0] == outcomes@[i as int]);
        assert(seen.skip(i as int).skip(1) =~= seen.skip(i + 1));
        if outcomes[i] {
            if i == 0 {
                return Detection::Found(Backend::Nft);
            }
            return Detection::Found(Backend::Iptables(ipt_program(i - 1)));
        }
        i += 1;
    }
    if n == 4 {
        Detection::Absent
    } else if n == 0 {
        let c = Invocation { program: "nft".to_owned(), args: strings(&["list", "ruleset"]) };
        assert(c@.args =~= seq!["list"@, "ruleset"@]);
        Detection::Probe(c)
    } else {
        let c = Invocation { program: ipt_program(n - 1).to_owned(), args: strings(&["-S"]) };
        assert(c@.args =~= seq!["-S"@]);
        Detection::Probe(c)
    }
}

// ── nftables ────────────────────────────────────────────────────────────────

/// Takes the table down, with its chain and rules.
pub open spec fn delete_table() -> Seq<Seq<char>> {
    seq!["delete"@, "table"@, "inet"@, NFT_TABLE@]
}

/// The ports of a rule.
pub open spec fn port_set(ports: Seq<Seq<char>>) -> Seq<char> {
    "{"@ + joined(ports, ","@) + "}"@
}

/// The rule that leads a protocol's traffic to some ports into a queue.
pub open spec fn nft_rule(proto: Seq<char>, ports: Seq<Seq<char>>, q: Seq<char>) -> Seq<Seq<char>> {
    seq![
        "add"@,
        "rule"@,
        "inet"@,
        NFT_TABLE@,
        "post"@,
        proto,
        "dport"@,
        port_set(ports),
        "queue"@,
        "num"@,
        q,
        "bypass"@,
    ]
}

/// The rule of a protocol, where there are ports.
pub open spec fn nft_rules(proto: Seq<char>, ports: Seq<Seq<char>>, q: Seq<char>) -> Seq<StepView> {
    if ports.len() == 0 {
        Seq::empty()
    } else {
        seq![must("nft"@, nft_rule(proto, ports, q))]
    }
}

/// The chain of the table.
pub open spec fn add_chain() -> Seq<Seq<char>> {
    seq![
        "add"@,
        "chain"@,
        "inet"@,
        NFT_TABLE@,
        "post"@,
        "{ type filter hook postrouting priority mangle; policy accept; }"@,
    ]
}

/// Brings the rules up in nftables: what an earlier run has left goes first.
pub open spec fn nft_up(
    q: Seq<char>,
    tcp: Seq<Seq<char>>,
    udp: Seq<Seq<char>>,
) -> Seq<StepView> {
    seq![
        may("nft"@, delete_table()),
        must("nft"@, seq!["add"@, "table"@, "inet"@, NFT_TABLE@]),
        must("nft"@, add_chain()),
    ] + nft_rules("tcp"@, tcp, q) + nft_rules("udp"@, udp, q)
}

fn delete_table_args() -> (r: Vec<String>)
    ensures
        texts(r@) == delete_table(),
{
    let r = strings(&["delete", "table", "inet", NFT_TABLE]);
    assert(texts(r@) =~= delete_table());
    r
}

/// Takes the rules of nftables down.
pub fn down_nft() -> (r: Vec<Step>)
    ensures
        script(r@) == seq![must("nft"@, delete_table())],
{
    let mut v: Vec<Step> = Vec::new();
    v.push(must_run("nft", delete_table_args()));
    assert(script(v@) =~= seq![must("nft"@, delete_table())]);
    v
}

fn nft_rule_steps(proto: &str, ports: &[String], q: &str) -> (r: Vec<Step>)
    ensures
        script(r@) == nft_rules(proto@, texts(ports@), q@),
{
    let mut v: Vec<Step> = Vec::new();
    if ports.len() > 0 {
        let set = cat3("{", join(ports, ",").as_str(), "}");
        let args = strings(
            &[
                "add",
                "rule",
                "inet",
                NFT_TABLE,
                "post",
                proto,
                "dport",
                set.as_str(),
                "queue",
                "num",
                q,
                "bypass",
            ],
        );
        assert(texts(args@) =~= nft_rule(proto@, texts(ports@), q@));
        v.push(must_run("nft", args));
    }
    assert(script(v@) =~= nft_rules(proto@, texts(ports@), q@));
    v
}

/// Brings the rules up in nftables.
pub fn up_nft(qnum: u16, tcp_ports: &[String], udp_ports: &[String]) -> (r: Vec<Step>)
    ensures
        script(r@) == nft_up(decimal(qnum as nat), texts(tcp_ports@), texts(udp_ports@)),
{
    let q = decimal_text(qnum as u64);
    let table = strings(&["add", "table", "inet", NFT_TABLE]);
    assert(texts(table@) =~= seq!["add"@, "table"@, "inet"@, NFT_TABLE@]);
    let post = strings(
        &[
            "add",
            "chain",
            "inet",
            NFT_TABLE,
            "post",
            "{ type filter hook postrouting priority mangle; policy accept; }",
        ],
    );
    assert(texts(post@) =~= add_chain());
    let mut v: Vec<Step> = Vec::new();
    v.push(may_run("nft", delete_table_args()));
    v.push(must_run("nft", table));
    v.push(must_run("nft", post));
    assert(script(v@) =~= seq![
        may("nft"@, delete_table()),
        must("nft"@, seq!["add"@, "table"@, "inet"@, NFT_TABLE@]),
        must("nft"@, add_chain()),
    ]);
    let v = chain(v, nft_rule_steps("tcp", tcp_ports, q.as_str()));
    chain(v, nft_rule_steps("udp", udp_ports, q.as_str()))
}

// ── iptables ────────────────────────────────────────────────────────────────

/// The ip6tables program beside an iptables program.
pub open spec fn ip6_name(prog: Seq<char>) -> Seq<char> {
    if prog == "iptables-nft"@ {
        "ip6tables-nft"@
    } else if prog == "iptables-legacy"@ {
        "ip6tables-legacy"@
    } else {
        "ip6tables"@
    }
}

/// The ip6tables program beside an iptables program.
pub fn ip6_variant(prog: &str) -> (r: &'static str)
    ensures
        r@ == ip6_name(prog@),
{
    if same(prog, "iptables-nft") {
        "ip6tables-nft"
    } else if same(prog, "iptables-legacy") {
        "ip6tables-legacy"
    } else {
        "ip6tables"
    }
}

/// Ports as iptables writes them: a range with a colon.
pub open spec fn colon_ports(ports: Seq<Seq<char>>) -> Seq<char> {
    joined(Seq::new(ports.len(), |i: int| replaced(ports[i], "-"@, ":"@)), ","@)
}

/// Ports as iptables writes them (`19294:19344`).
pub fn iptables_ports(ports: &[String]) -> (r: String)
    ensures
        r@ == colon_ports(texts(ports@)),
{
    let ghost want = Seq::new(
        texts(ports@).len(),
        |i: int| replaced(texts(ports@)[i], "-"@, ":"@),
    );
    let mut v: Vec<String> = Vec::new();
    let mut i: usize = 0;
    proof {
        reveal_strlit("-");
    }
    while i < ports.len()
        invariant
            i <= ports@.len(),
            v@.len() == i,
            "-"@.len() == 1,
            forall|k: int| 0 <= k < i ==> (#[trigger] v@[k])@ == replaced(ports@[k]@, "-"@, ":"@),
        decreases ports@.len() - i,
    {
        v.push(replace(ports[i].as_str(), "-", ":"));
        i += 1;
    }
    assert(texts(v@) =~= want);
    join(&v, ",")
}

/// The arguments of a command on the chain itself (`-N`, `-F`, `-X`).
pub open spec fn on_chain(flag: Seq<char>) -> Seq<Seq<char>> {
    seq!["-t"@, "mangle"@, flag, IPT_CHAIN@]
}

/// The arguments of a command on the jump into the chain (`-C`, `-A`, `-D`).
pub open spec fn on_jump(flag: Seq<char>) -> Seq<Seq<char>> {
    seq!["-t"@, "mangle"@, flag, "POSTROUTING"@, "-j"@, IPT_CHAIN@]
}

/// The rule that leads a protocol's traffic to some ports into a queue.
pub open spec fn ipt_rule(proto: Seq<char>, ports: Seq<Seq<char>>, q: Seq<char>) -> Seq<Seq<char>> {
    seq![
        "-t"@,
        "mangle"@,
        "-A"@,
        IPT_CHAIN@,
        "-p"@,
        proto,
        "-m"@,
        "multiport"@,
        "--dports"@,
        colon_ports(ports),
        "-j"@,
        "NFQUEUE"@,
        "--queue-num"@,
        q,
        "--queue-bypass"@,
    ]
}

/// The rule of a protocol, where there are ports.
pub open spec fn ipt_rules(
    prog: Seq<char>,
    proto: Seq<char>,
    ports: Seq<Seq<char>>,
    q: Seq<char>,
) -> Seq<StepView> {
    if ports.len() == 0 {
        Seq::empty()
    } else {
        seq![must(prog, ipt_rule(proto, ports, q))]
    }
}

/// Whether the jump into the chain is there; where it is, the next step is left out.
pub open spec fn unless_jump(prog: Seq<char>) -> StepView {
    StepView {
        command: InvocationView { program: prog, args: on_jump("-C"@) },
        quiet: false,
        on_ok: 1,
        on_fail: OnFail::Skip(0),
    }
}

/// Makes the chain with its rules, and the jump into it where there is none yet.
pub open spec fn ipt_setup(
    prog: Seq<char>,
    q: Seq<char>,
    tcp: Seq<Seq<char>>,
    udp: Seq<Seq<char>>,
) -> Seq<StepView> {
    seq![may(prog, on_chain("-N"@)), may(prog, on_chain("-F"@))] + ipt_rules(prog, "tcp"@, tcp, q)
        + ipt_rules(prog, "udp"@, udp, q) + seq![
        unless_jump(prog),
        must(prog, on_jump("-A"@)),
    ]
}

/// Takes the jump out as long as it is there, at most eight times: the steps of one try
/// are a check, which leaves out all further tries where the jump is gone, and a removal.
pub open spec fn jump_removal(prog: Seq<char>) -> Seq<StepView> {
    Seq::new(
        16,
        |i: int|
            if i % 2 == 0 {
                StepView {
                    command: InvocationView { program: prog, args: on_jump("-C"@) },
                    quiet: false,
                    on_ok: 0,
                    on_fail: OnFail::Skip((15 - i) as usize),
                }
            } else {
                may(prog, on_jump("-D"@))
            },
    )
}

/// Takes the chain down: the jumps into it, then its rules, then the chain.
pub open spec fn ipt_teardown(prog: Seq<char>) -> Seq<StepView> {
    jump_removal(prog) + seq![may(prog, on_chain("-F"@)), may(prog, on_chain("-X"@))]
}

/// `part` behind a question whether the program works; where it does not, `part` is left
/// out.
pub open spec fn if_works(prog: Seq<char>, part: Seq<StepView>) -> Seq<StepView> {
    seq![
        StepView {
            command: InvocationView { program: prog, args: seq!["-S"@] },
            quiet: true,
            on_ok: 0,
            on_fail: OnFail::Skip(part.len() as usize),
        },
    ] + part
}

/// Takes the rules of an iptables program down, and those of its ip6tables program.
pub open spec fn ipt_down(prog: Seq<char>) -> Seq<StepView> {
    ipt_teardown(prog) + if_works(ip6_name(prog), ipt_teardown(ip6_name(prog)))
}

/// Brings the rules up in iptables: what an earlier run has left goes first. IPv6 rules
/// are an extra: their failure does not fail the whole.
pub open spec fn ipt_up(
    prog: Seq<char>,
    q: Seq<char>,
    tcp: Seq<Seq<char>>,
    udp: Seq<Seq<char>>,
) -> Seq<StepView> {
    ipt_down(prog) + ipt_setup(prog, q, tcp, udp) + if_works(
        ip6_name(prog),
        excused(ipt_setup(ip6_name(prog), q, tcp, udp), true),
    )
}

fn chain_args(flag: &str) -> (r: Vec<String>)
    ensures
        texts(r@) == on_chain(flag@),
{
    let r = strings(&["-t", "mangle", flag, IPT_CHAIN]);
    assert(texts(r@) =~= on_chain(flag@));
    r
}

fn jump_args(flag: &str) -> (r: Vec<String>)
    ensures
        texts(r@) == on_jump(flag@),
{
    let r = strings(&["-t", "mangle", flag, "POSTROUTING", "-j", IPT_CHAIN]);
    assert(texts(r@) =~= on_jump(flag@));
    r
}

fn ipt_rule_steps(prog: &str, proto: &str, ports: &[String], q: &str) -> (r: Vec<Step>)
    ensures
        script(r@) == ipt_rules(prog@, proto@, texts(ports@), q@),
{
    let mut v: Vec<Step> = Vec::new();
    if ports.len() > 0 {
        let csv = iptables_ports(ports);
        let args = strings(
            &[
                "-t",
                "mangle",
                "-A",
                IPT_CHAIN,
                "-p",
                proto,
                "-m",
                "multiport",
                "--dports",
                csv.as_str(),
                "-j",
                "NFQUEUE",
                "--queue-num",
                q,
                "--queue-bypass",
            ],
        );
        assert(texts(args@) =~= ipt_rule(proto@, texts(ports@), q@));
        v.push(must_run(prog, args));
    }
    assert(script(v@) =~= ipt_rules(prog@, proto@, texts(ports@), q@));
    v
}

/// Makes the chain with its rules and the jump into it.
pub fn setup_iptables_chain(prog: &str, q: &str, tcp_ports: &[String], udp_ports: &[String]) -> (r:
    Vec<Step>)
    ensures
        script(r@) == ipt_setup(prog@, q@, texts(tcp_ports@), texts(udp_ports@)),
{
    let mut v: Vec<Step> = Vec::new();
    v.push(may_run(prog, chain_args("-N")));
    v.push(may_run(prog, chain_args("-F")));
    assert(script(v@) =~= seq![may(prog@, on_chain("-N"@)), may(prog@, on_chain("-F"@))]);
    let v = chain(v, ipt_rule_steps(prog, "tcp", tcp_ports, q));
    let v = chain(v, ipt_rule_steps(prog, "udp", udp_ports, q));
    let mut jump: Vec<Step> = Vec::new();
    jump.push(
        Step {
            command: Invocation { program: prog.to_owned(), args: jump_args("-C") },
            quiet: false,
            on_ok: 1,
            on_fail: OnFail::Skip(0),
        },
    );
    jump.push(must_run(prog, jump_args("-A")));
    assert(script(jump@) =~= seq![unless_jump(prog@), must(prog@, on_jump("-A"@))]);
    chain(v, jump)
}

/// Takes the chain of one program down. It needs no ports.
pub fn teardown_iptables_chain(prog: &str) -> (r: Vec<Step>)
    ensures
        script(r@) == ipt_teardown(prog@),
{
    let mut v: Vec<Step> = Vec::new();
    let mut i: usize = 0;
    while i < 8
        invariant
            i <= 8,
            v@.len() == 2 * i,
            forall|k: int| 0 <= k < 2 * i ==> (#[trigger] v@[k])@ == jump_removal(prog@)[k],
        decreases 8 - i,
    {
        v.push(
            Step {
                command: Invocation { program: prog.to_owned(), args: jump_args("-C") },
                quiet: false,
                on_ok: 0,
                on_fail: OnFail::Skip(15 - 2 * i),
            },
        );
        v.push(may_run(prog, jump_args("-D")));
        i += 1;
    }
    v.push(may_run(prog, chain_args("-F")));
    v.push(may_run(prog, chain_args("-X")));
    assert(script(v@) =~= ipt_teardown(prog@));
    v
}

fn when_works(prog: &str, part: Vec<Step>) -> (r: Vec<Step>)
    ensures
        script(r@) == if_works(prog@, script(part@)),
{
    let args = strings(&["-S"]);
    assert(texts(args@) =~= seq!["-S"@]);
    let mut v: Vec<Step> = Vec::new();
    v.push(
        Step {
            command: Invocation { program: prog.to_owned(), args },
            quiet: true,
            on_ok: 0,
            on_fail: OnFail::Skip(part.len()),
        },
    );
    let r = chain(v, part);
    assert(script(r@) =~= if_works(prog@, script(part@)));
    r
}

/// Takes the rules of an iptables program down, and those of its ip6tables program.
pub fn down_iptables(prog: &str) -> (r: Vec<Step>)
    ensures
        script(r@) == ipt_down(prog@),
{
    let ip6 = ip6_variant(prog);
    chain(teardown_iptables_chain(prog), when_works(ip6, teardown_iptables_chain(ip6)))
}

/// Brings the rules up in iptables.
pub fn up_iptables(prog: &str, qnum: u16, tcp_ports: &[String], udp_ports: &[String]) -> (r: Vec<
    Step,
>)
    ensures
        script(r@) == ipt_up(
            prog@,
            decimal(qnum as nat),
            texts(tcp_ports@),
            texts(udp_ports@),
        ),
{
    let q = decimal_text(qnum as u64);
    let ip6 = ip6_variant(prog);
    let v = chain(down_iptables(prog), setup_iptables_chain(prog, q.as_str(), tcp_ports, udp_ports));
    let mut six = setup_iptables_chain(ip6, q.as_str(), tcp_ports, udp_ports);
    excuse(&mut six, true);
    chain(v, when_works(ip6, six))
}

// ── Either firewall ─────────────────────────────────────────────────────────

/// Brings the rules up.
pub open spec fn up_script(
    b: Option<Seq<char>>,
    q: Seq<char>,
    tcp: Seq<Seq<char>>,
    udp: Seq<Seq<char>>,
) -> Seq<StepView> {
    match b {
        None => nft_up(q, tcp, udp),
        Some(prog) => ipt_up(prog, q, tcp, udp),
    }
}

/// Takes the rules down.
pub open spec fn down_script(b: Option<Seq<char>>) -> Seq<StepView> {
    match b {
        None => seq![must("nft"@, delete_table())],
        Some(prog) => ipt_down(prog),
    }
}

/// Takes down whatever rules there may be, of every firewall.
pub open spec fn down_all_script() -> Seq<StepView> {
    seq![may("nft"@, delete_table())] + ipt_down(ipt_programs()[0]) + ipt_down(ipt_programs()[1])
        + ipt_down(ipt_programs()[2])
}

/// The script that brings the capture rules up for the queue `qnum` and the given ports.
/// The ports are those of nftables: ranges are written with a hyphen.
pub fn up(backend: Backend, qnum: u16, tcp_ports: &[String], udp_ports: &[String]) -> (r: Vec<Step>)
    ensures
        script(r@) == up_script(
            ipt(backend),
            decimal(qnum as nat),
            texts(tcp_ports@),
            texts(udp_ports@),
        ),
{
    match backend {
        Backend::Nft => up_nft(qnum, tcp_ports, udp_ports),
        Backend::Iptables(prog) => up_iptables(prog, qnum, tcp_ports, udp_ports),
    }
}

/// The script that takes the rules down that this firewall has brought up.
pub fn down(backend: Backend) -> (r: Vec<Step>)
    ensures
        script(r@) == down_script(ipt(backend)),
{
    match backend {
        Backend::Nft => down_nft(),
        Backend::Iptables(prog) => down_iptables(prog),
    }
}

/// The script that takes down whatever rules there may be, of every firewall.
pub fn down_all() -> (r: Vec<Step>)
    ensures
        script(r@) == down_all_script(),
{
    let mut v: Vec<Step> = Vec::new();
    v.push(may_run("nft", delete_table_args()));
    assert(script(v@) =~= seq![may("nft"@, delete_table())]);
    let v = chain(v, down_iptables(ipt_program(0)));
    let v = chain(v, down_iptables(ipt_program(1)));
    chain(v, down_iptables(ipt_program(2)))
}

// ── Whether the rules are there ─────────────────────────────────────────────

/// How a firewall answered the question for the rules.
#[derive(Debug)]
pub enum Reading {
    /// It listed them.
    Listed,
    /// It failed, with this on its error output.
    Refused(String),
    /// The program could not be started.
    Missing,
}

/// How a firewall answered, as a mathematical value.
pub enum ReadingView {
    Listed,
    Refused(Seq<char>),
    Missing,
}

impl View for Reading {
    type V = ReadingView;

    open spec fn view(&self) -> ReadingView {
        match self {
            Reading::Listed => ReadingView::Listed,
            Reading::Refused(e) => ReadingView::Refused(e@),
            Reading::Missing => ReadingView::Missing,
        }
    }
}

/// What is to be done to find out whether the rules are there.
#[derive(Debug)]
pub enum Presence {
    /// Run this command, and add how it answered to the readings.
    Ask(Invocation),
    /// The rules are certainly there, or certainly not.
    Known(bool),
    /// No firewall could be read.
    Unknown,
}

/// What one answer says: the rules are there; they are not, where the firewall says so;
/// nothing, where it could not be read (for lack of rights, say).
pub open spec fn verdict(i: int, r: ReadingView) -> Option<bool> {
    match r {
        ReadingView::Listed => Some(true),
        ReadingView::Missing => None,
        ReadingView::Refused(e) => {
            let small = lowered(e);
            let absent = if i == 0 {
                contains(small, "no such"@) || contains(small, "does not exist"@)
            } else {
                contains(small, "no chain"@) || contains(small, "no such"@)
            };
            if absent {
                Some(false)
            } else {
                None
            }
        },
    }
}

/// The command that asks firewall number `i` for the rules.
pub open spec fn rules_command(i: int) -> InvocationView {
    if i == 0 {
        InvocationView { program: "nft"@, args: seq!["list"@, "table"@, "inet"@, NFT_TABLE@] }
    } else {
        InvocationView {
            program: ipt_programs()[i - 1],
            args: seq!["-t"@, "mangle"@, "-S"@, IPT_CHAIN@],
        }
    }
}

/// What the first answer that says anything says. `i` is the number of the first answer.
pub open spec fn first_verdict(rs: Seq<ReadingView>, i: int) -> Option<bool>
    decreases rs.len(),
{
    if rs.len() == 0 {
        None
    } else {
        match verdict(i, rs[0]) {
            Some(b) => Some(b),
            None => first_verdict(rs.skip(1), i + 1),
        }
    }
}

/// The answers of a list as mathematical values.
pub open spec fn readings_view(rs: Seq<Reading>) -> Seq<ReadingView> {
    Seq::new(rs.len(), |i: int| rs[i]@)
}

/// The number of answers that count.
pub open spec fn counted(n: nat) -> int {
    if n < 4 {
        n as int
    } else {
        4
    }
}

fn judge(first: bool, r: &Reading) -> (b: Option<bool>)
    ensures
        b == verdict(if first {
            0
        } else {
            1
        }, r@),
{
    match r {
        Reading::Listed => Some(true),
        Reading::Missing => None,
        Reading::Refused(e) => {
            let small = ascii_lowered(e.as_str());
            let absent = if first {
                occurs(small.as_str(), "no such") || occurs(small.as_str(), "does not exist")
            } else {
                occurs(small.as_str(), "no chain") || occurs(small.as_str(), "no such")
            };
            if absent {
                Some(false)
            } else {
                None
            }
        },
    }
}

/// Whether the capture rules are there. Nftables is asked first, then the iptables
/// variants, until one gives an answer; `readings` holds the answers so far. A firewall
/// that cannot be read, for lack of rights or because it is missing, says nothing.
pub fn rules_present(readings: &[Reading]) -> (r: Presence)
    ensures
        match first_verdict(readings_view(readings@).take(counted(readings@.len())), 0) {
            Some(b) => r == Presence::Known(b),
            None => if readings@.len() < 4 {
                r matches Presence::Ask(c) && c@ == rules_command(readings@.len() as int)
            } else {
                r is Unknown
            },
        },
{
    let n: usize = if readings.len() < 4 {
        readings.len()
    } else {
        4
    };
    let ghost seen = readings_view(readings@).take(n as int);
    let mut i: usize = 0;
    assert(seen.skip(0) =~= seen);
    while i < n
        invariant
            i <= n <= 4,
            n == counted(readings@.len()),
            n <= readings@.len(),
            seen == readings_view(readings@).take(n as int),
            first_verdict(seen, 0) == first_verdict(seen.skip(i as int), i as int),
        decreases n - i,
    {
        assert(seen.skip(i as int)[0] == readings@[i as int]@);
        assert(seen.skip(i as int).skip(1) =~= seen.skip(i + 1));
        match judge(i == 0, &readings[i]) {
            Some(b) => {
                return Presence::Known(b);
            },
            None => {},
        }
        i += 1;
    }
    if n == 4 {
        Presence::Unknown
    } else if n == 0 {
        let c = Invocation {
            program: "nft".to_owned(),
            args: strings(&["list", "table", "inet", NFT_TABLE]),
        };
        assert(c@.args =~= rules_command(0).args);
        Presence::Ask(c)
    } else {
        let c = Invocation {
            program: ipt_program(n - 1).to_owned(),
            args: strings(&["-t", "mangle", "-S", IPT_CHAIN]),
        };
        assert(c@.args =~= rules_command(n as int).args);
        Presence::Ask(c)
    }
}

// ── What holds of the scripts ───────────────────────────────────────────────

/// A command that leads packets into a queue.
pub open spec fn queues(c: InvocationView) -> bool {
    c.args.contains("queue"@) || c.args.contains("NFQUEUE"@)
}

/// A command that leads packets into the queue `q` and lets them pass by while nothing
/// reads it.
pub open spec fn queues_safely(c: InvocationView, q: Seq<char>) -> bool {
    let n = c.args.len() as int;
    &&& n >= 3
    &&& c.args[n - 2] == q
    &&& (c.args[n - 3] == "num"@ && c.args[n - 1] == "bypass"@) || (c.args[n - 3]
        == "--queue-num"@ && c.args[n - 1] == "--queue-bypass"@)
}

/// Every command of a script that leads packets into a queue does so safely.
pub open spec fn safe(s: Seq<StepView>, q: Seq<char>) -> bool {
    forall|i: int|
        0 <= i < s.len() ==> queues(#[trigger] s[i].command) ==> queues_safely(s[i].command, q)
}

proof fn lemma_safe_cat(a: Seq<StepView>, b: Seq<StepView>, q: Seq<char>)
    requires
        safe(a, q),
        safe(b, q),
    ensures
        safe(a + b, q),
{
    let c = a + b;
    assert forall|i: int| 0 <= i < c.len() && queues(#[trigger] c[i].command) implies queues_safely(
        c[i].command,
        q,
    ) by {
        if i < a.len() {
            assert(c[i] == a[i]);
            assert(queues(a[i].command) ==> queues_safely(a[i].command, q));
        } else {
            assert(c[i] == b[i - a.len()]);
            assert(queues(b[i - a.len()].command) ==> queues_safely(b[i - a.len()].command, q));
        }
    }
}

proof fn lemma_words()
    ensures
        "queue"@.len() == 5,
        "NFQUEUE"@.len() == 7,
        "-t"@.len() == 2,
        "-j"@.len() == 2,
        "-S"@.len() == 2,
        "mangle"@.len() == 6,
        "POSTROUTING"@.len() == 11,
        "queue"@ != "table"@,
        "queue"@ != "chain"@,
        "NFQUEUE"@ != NFT_TABLE@,
        "NFQUEUE"@ != IPT_CHAIN@,
        "queue"@ != NFT_TABLE@,
        "queue"@ != IPT_CHAIN@,
        "table"@.len() == 5,
        "chain"@.len() == 5,
        "delete"@.len() == 6,
        "inet"@.len() == 4,
        "add"@.len() == 3,
        "post"@.len() == 4,
        "{ type filter hook postrouting priority mangle; policy accept; }"@.len() == 64,
{
    reveal_strlit("queue");
    reveal_strlit("NFQUEUE");
    reveal_strlit("-t");
    reveal_strlit("-j");
    reveal_strlit("-S");
    reveal_strlit("mangle");
    reveal_strlit("POSTROUTING");
    reveal_strlit("ZAPRUST");
    reveal_strlit("zaprust");
    reveal_strlit("table");
    reveal_strlit("chain");
    reveal_strlit("delete");
    reveal_strlit("inet");
    reveal_strlit("add");
    reveal_strlit("post");
    reveal_strlit("{ type filter hook postrouting priority mangle; policy accept; }");
    assert("queue"@[0] == 'q' && "table"@[0] == 't' && "chain"@[0] == 'c');
    assert("NFQUEUE"@[0] == 'N' && "zaprust"@[0] == 'z' && "ZAPRUST"@[0] == 'Z');
    assert("zaprust"@.len() == 7 && "ZAPRUST"@.len() == 7);
}

proof fn lemma_jump_args(flag: Seq<char>)
    requires
        flag.len() == 2,
    ensures
        !on_jump(flag).contains("queue"@),
        !on_jump(flag).contains("NFQUEUE"@),
        !on_chain(flag).contains("queue"@),
        !on_chain(flag).contains("NFQUEUE"@),
{
    lemma_words();
}

proof fn lemma_teardown_safe(prog: Seq<char>, q: Seq<char>)
    ensures
        safe(ipt_teardown(prog), q),
        safe(if_works(prog, ipt_teardown(prog)), q),
        safe(ipt_down(prog), q),
{
    reveal_strlit("-C");
    reveal_strlit("-D");
    reveal_strlit("-F");
    reveal_strlit("-X");
    lemma_words();
    assert("-C"@.len() == 2);
    lemma_jump_args("-C"@);
    assert("-D"@.len() == 2);
    lemma_jump_args("-D"@);
    assert("-F"@.len() == 2);
    lemma_jump_args("-F"@);
    assert("-X"@.len() == 2);
    lemma_jump_args("-X"@);
    assert forall|p: Seq<char>| safe(#[trigger] ipt_teardown(p), q) by {
        let s = ipt_teardown(p);
        assert forall|i: int| 0 <= i < s.len() && queues(
            #[trigger] s[i].command,
        ) implies queues_safely(s[i].command, q) by {}
    }
    assert forall|p: Seq<char>| safe(#[trigger] if_works(p, ipt_teardown(p)), q) by {
        let head = if_works(p, ipt_teardown(p)).take(1);
        assert(!seq!["-S"@].contains("queue"@));
        assert(!seq!["-S"@].contains("NFQUEUE"@));
        assert(safe(head, q));
        lemma_safe_cat(head, ipt_teardown(p), q);
        assert(head + ipt_teardown(p) =~= if_works(p, ipt_teardown(p)));
    }
    lemma_safe_cat(
        ipt_teardown(prog),
        if_works(ip6_name(prog), ipt_teardown(ip6_name(prog))),
        q,
    );
}

proof fn lemma_setup_safe(
    prog: Seq<char>,
    q: Seq<char>,
    tcp: Seq<Seq<char>>,
    udp: Seq<Seq<char>>,
)
    ensures
        safe(ipt_setup(prog, q, tcp, udp), q),
        safe(if_works(prog, excused(ipt_setup(prog, q, tcp, udp), true)), q),
{
    lemma_words();
    reveal_strlit("-N");
    reveal_strlit("-F");
    reveal_strlit("-C");
    reveal_strlit("-A");
    assert("-N"@.len() == 2);
    lemma_jump_args("-N"@);
    assert("-F"@.len() == 2);
    lemma_jump_args("-F"@);
    assert("-C"@.len() == 2);
    lemma_jump_args("-C"@);
    assert("-A"@.len() == 2);
    lemma_jump_args("-A"@);
    let a = seq![may(prog, on_chain("-N"@)), may(prog, on_chain("-F"@))];
    let b = ipt_rules(prog, "tcp"@, tcp, q);
    let c = ipt_rules(prog, "udp"@, udp, q);
    let d = seq![unless_jump(prog), must(prog, on_jump("-A"@))];
    assert(safe(a, q));
    assert(safe(b, q));
    assert(safe(c, q));
    assert(safe(d, q));
    lemma_safe_cat(a, b, q);
    lemma_safe_cat(a + b, c, q);
    lemma_safe_cat(a + b + c, d, q);
    let s = ipt_setup(prog, q, tcp, udp);
    let e = excused(s, true);
    assert forall|i: int| 0 <= i < e.len() && queues(#[trigger] e[i].command) implies queues_safely(
        e[i].command,
        q,
    ) by {
        assert(e[i].command == s[i].command);
    }
    let head = if_works(prog, e).take(1);
    assert(!seq!["-S"@].contains("queue"@));
    assert(!seq!["-S"@].contains("NFQUEUE"@));
    assert(safe(head, q));
    lemma_safe_cat(head, e, q);
    assert(head + e =~= if_works(prog, e));
}

proof fn lemma_nft_safe(q: Seq<char>, tcp: Seq<Seq<char>>, udp: Seq<Seq<char>>)
    ensures
        safe(nft_up(q, tcp, udp), q),
{
    lemma_words();
    let a = seq![
        may("nft"@, delete_table()),
        must("nft"@, seq!["add"@, "table"@, "inet"@, NFT_TABLE@]),
        must("nft"@, add_chain()),
    ];
    let b = nft_rules("tcp"@, tcp, q);
    let c = nft_rules("udp"@, udp, q);
    assert(safe(a, q));
    assert(safe(b, q));
    assert(safe(c, q));
    lemma_safe_cat(a, b, q);
    lemma_safe_cat(a + b, c, q);
}

/// Whatever the firewall and the ports: every command that leads packets into a queue
/// names the queue of the engine and lets packets pass by while no engine reads it.
pub proof fn every_queue_rule_bypasses(
    b: Option<Seq<char>>,
    q: Seq<char>,
    tcp: Seq<Seq<char>>,
    udp: Seq<Seq<char>>,
)
    ensures
        safe(up_script(b, q, tcp, udp), q),
{
    match b {
        None => {
            lemma_nft_safe(q, tcp, udp);
        },
        Some(prog) => {
            lemma_teardown_safe(prog, q);
            lemma_setup_safe(prog, q, tcp, udp);
            lemma_setup_safe(ip6_name(prog), q, tcp, udp);
            lemma_safe_cat(ipt_down(prog), ipt_setup(prog, q, tcp, udp), q);
            lemma_safe_cat(
                ipt_down(prog) + ipt_setup(prog, q, tcp, udp),
                if_works(ip6_name(prog), excused(ipt_setup(ip6_name(prog), q, tcp, udp), true)),
                q,
            );
        },
    }
}

/// No step of the script must succeed.
pub open spec fn no_abort(s: Seq<StepView>) -> bool {
    forall|i: int| 0 <= i < s.len() ==> (#[trigger] s[i]).on_fail != OnFail::Abort
}

proof fn lemma_no_abort_succeeds(s: Seq<StepView>, i: int, answers: spec_fn(int) -> bool)
    requires
        no_abort(s),
    ensures
        succeeds(s, i, answers),
    decreases s.len() - i,
{
    if 0 <= i < s.len() {
        assert(s[i].on_fail != OnFail::Abort);
        match crate::script::follow(s, i, answers(i)) {
            Some(j) => lemma_no_abort_succeeds(s, j, answers),
            None => {},
        }
    }
}

proof fn lemma_down_no_abort(prog: Seq<char>)
    ensures
        no_abort(ipt_down(prog)),
{
}

/// Taking everything down succeeds whatever the commands answer, and so does taking down
/// the rules of an iptables program.
pub proof fn clean_up_never_fails(prog: Seq<char>, answers: spec_fn(int) -> bool)
    ensures
        succeeds(down_all_script(), 0, answers),
        succeeds(down_script(Some(prog)), 0, answers),
{
    lemma_down_no_abort(prog);
    lemma_no_abort_succeeds(ipt_down(prog), 0, answers);
    let p0 = ipt_programs()[0];
    let p1 = ipt_programs()[1];
    let p2 = ipt_programs()[2];
    lemma_down_no_abort(p0);
    lemma_down_no_abort(p1);
    lemma_down_no_abort(p2);
    let a = seq![may("nft"@, delete_table())] + ipt_down(p0);
    assert(no_abort(a));
    let b = a + ipt_down(p1);
    assert(no_abort(b));
    assert(no_abort(b + ipt_down(p2)));
    lemma_no_abort_succeeds(down_all_script(), 0, answers);
}

/// In nftables the rules are up exactly when every command but the first, which only
/// clears what an earlier run has left, has succeeded.
pub proof fn nft_rules_are_all_or_error(
    q: Seq<char>,
    tcp: Seq<Seq<char>>,
    udp: Seq<Seq<char>>,
    answers: spec_fn(int) -> bool,
)
    ensures
        succeeds(nft_up(q, tcp, udp), 0, answers) <==> forall|i: int|
            1 <= i < nft_up(q, tcp, udp).len() ==> #[trigger] answers(i),
{
    let s = nft_up(q, tcp, udp);
    assert forall|i: int| 1 <= i < s.len() implies (#[trigger] s[i]).on_fail == OnFail::Abort
        && s[i].on_ok == 0 by {}
    lemma_straight(s, 1, answers);
    assert(s[0].on_fail == OnFail::Skip(0) && s[0].on_ok == 0);
}

proof fn lemma_straight(s: Seq<StepView>, i: int, answers: spec_fn(int) -> bool)
    requires
        0 <= i,
        forall|k: int|
            i <= k < s.len() ==> (#[trigger] s[k]).on_fail == OnFail::Abort && s[k].on_ok == 0,
    ensures
        succeeds(s, i, answers) <==> forall|k: int| i <= k < s.len() ==> #[trigger] answers(k),
    decreases s.len() - i,
{
    if i < s.len() {
        assert(s[i].on_fail == OnFail::Abort && s[i].on_ok == 0);
        lemma_straight(s, i + 1, answers);
    }
}

/// In iptables the chain is set up exactly when every rule has been added and the jump
/// into the chain was there or has been added.
pub proof fn ipt_chain_is_all_or_error(
    prog: Seq<char>,
    q: Seq<char>,
    tcp: Seq<Seq<char>>,
    udp: Seq<Seq<char>>,
    answers: spec_fn(int) -> bool,
)
    ensures
        ({
            let n = ipt_setup(prog, q, tcp, udp).len() as int;
            succeeds(ipt_setup(prog, q, tcp, udp), 0, answers) <==> (forall|i: int|
                2 <= i < n - 2 ==> #[trigger] answers(i)) && (answers(n - 2) || answers(n - 1))
        }),
{
    let s = ipt_setup(prog, q, tcp, udp);
    let n = s.len() as int;
    assert(s[0] == may(prog, on_chain("-N"@)));
    assert(s[1] == may(prog, on_chain("-F"@)));
    assert(s[n - 2] == unless_jump(prog));
    assert(s[n - 1] == must(prog, on_jump("-A"@)));
    assert forall|i: int| 2 <= i < n - 2 implies (#[trigger] s[i]).on_fail == OnFail::Abort
        && s[i].on_ok == 0 by {}
    reveal_with_fuel(succeeds, 7);
    assert(succeeds(s, n, answers));
    assert(succeeds(s, n - 1, answers) == answers(n - 1));
    assert(succeeds(s, n - 2, answers) == (answers(n - 2) || answers(n - 1)));
}

/// Whether a command works on the table of this program.
pub open spec fn on_own_table(c: InvocationView) -> bool {
    c.program == "nft"@ && c.args.len() >= 4 && c.args[2] == "inet"@ && c.args[3] == NFT_TABLE@
}

/// Whether a command works on the chain of this program, or on the jump into it.
pub open spec fn on_own_chain(c: InvocationView) -> bool {
    &&& c.args.len() >= 4
    &&& c.args[0] == "-t"@ && c.args[1] == "mangle"@
    &&& c.args[3] == IPT_CHAIN@ || c.args == on_jump(c.args[2])
}

/// Whether a command only asks whether a program works.
pub open spec fn only_asks(c: InvocationView) -> bool {
    c.args == seq!["-S"@]
}

/// Whether every command of a script keeps to what belongs to this program.
pub open spec fn keeps_to_its_own(s: Seq<StepView>) -> bool {
    forall|i: int|
        0 <= i < s.len() ==> {
            let c = (#[trigger] s[i]).command;
            on_own_table(c) || on_own_chain(c) || only_asks(c)
        }
}

proof fn lemma_own_chain_scripts(
    prog: Seq<char>,
    q: Seq<char>,
    tcp: Seq<Seq<char>>,
    udp: Seq<Seq<char>>,
)
    ensures
        keeps_to_its_own(ipt_teardown(prog)),
        keeps_to_its_own(ipt_setup(prog, q, tcp, udp)),
        keeps_to_its_own(if_works(prog, ipt_teardown(prog))),
        keeps_to_its_own(if_works(prog, excused(ipt_setup(prog, q, tcp, udp), true))),
{
    let t = ipt_teardown(prog);
    let u = ipt_setup(prog, q, tcp, udp);
    let e = excused(u, true);
    assert(keeps_to_its_own(t));
    assert(keeps_to_its_own(ipt_rules(prog, "tcp"@, tcp, q)));
    assert(keeps_to_its_own(ipt_rules(prog, "udp"@, udp, q)));
    assert(keeps_to_its_own(u));
    assert forall|i: int| 0 <= i < e.len() implies (#[trigger] e[i]).command == u[i].command by {}
    assert(keeps_to_its_own(e));
    let x = if_works(prog, t);
    assert forall|i: int| 1 <= i < x.len() implies (#[trigger] x[i]) == t[i - 1] by {}
    let y = if_works(prog, e);
    assert forall|i: int| 1 <= i < y.len() implies (#[trigger] y[i]) == e[i - 1] by {}
}

proof fn lemma_own_down(prog: Seq<char>)
    ensures
        keeps_to_its_own(ipt_down(prog)),
{
    lemma_own_chain_scripts(prog, ""@, Seq::empty(), Seq::empty());
    lemma_own_chain_scripts(ip6_name(prog), ""@, Seq::empty(), Seq::empty());
}

/// Whatever the firewall and the ports: bringing the rules up and taking them down works on
/// the one table, or the one chain with the jump into it, and on nothing else. So no rule
/// of anyone else is touched.
pub proof fn foreign_rules_are_left_alone(
    b: Option<Seq<char>>,
    q: Seq<char>,
    tcp: Seq<Seq<char>>,
    udp: Seq<Seq<char>>,
)
    ensures
        keeps_to_its_own(up_script(b, q, tcp, udp)),
        keeps_to_its_own(down_script(b)),
        keeps_to_its_own(down_all_script()),
{
    match b {
        None => {
            assert(keeps_to_its_own(nft_rules("tcp"@, tcp, q)));
            assert(keeps_to_its_own(nft_rules("udp"@, udp, q)));
        },
        Some(prog) => {
            lemma_own_down(prog);
            lemma_own_chain_scripts(prog, q, tcp, udp);
            lemma_own_chain_scripts(ip6_name(prog), q, tcp, udp);
        },
    }
    lemma_own_down(ipt_programs()[0]);
    lemma_own_down(ipt_programs()[1]);
    lemma_own_down(ipt_programs()[2]);
}

// ── What the rules say ──────────────────────────────────────────────────────

proof fn lemma_colons(ports: Seq<Seq<char>>)
    ensures
        colon_ports(ports).len() == joined(ports, ","@).len(),
        forall|i: int|
            0 <= i < colon_ports(ports).len() ==> #[trigger] colon_ports(ports)[i] == (if joined(
                ports,
                ","@,
            )[i] == '-' {
                ':'
            } else {
                joined(ports, ","@)[i]
            }),
    decreases ports.len(),
{
    reveal_strlit(",");
    reveal_strlit("-");
    reveal_strlit(":");
    assert("-"@ =~= seq!['-']);
    assert(":"@ =~= seq![':']);
    let made = Seq::new(ports.len(), |i: int| replaced(ports[i], "-"@, ":"@));
    let a = colon_ports(ports);
    let b = joined(ports, ","@);
    if ports.len() > 0 {
        let t = ports.drop_last();
        let last = ports.last();
        crate::text::replacing_a_char_maps_it(last, '-', ':');
        assert(made.last() == replaced(last, "-"@, ":"@));
        if ports.len() > 1 {
            lemma_colons(t);
            let x = colon_ports(t);
            let y = joined(t, ","@);
            assert(made.drop_last() =~= Seq::new(t.len(), |i: int| replaced(t[i], "-"@, ":"@)));
            assert(a =~= x + ","@ + made.last());
            assert(b =~= y + ","@ + last);
            assert forall|i: int| 0 <= i < a.len() implies #[trigger] a[i] == (if b[i] == '-' {
                ':'
            } else {
                b[i]
            }) by {
                if i < x.len() {
                    assert(a[i] == x[i] && b[i] == y[i]);
                } else if i > x.len() {
                    assert(a[i] == made.last()[i - x.len() - 1]);
                    assert(b[i] == last[i - y.len() - 1]);
                }
            }
        }
    }
}

/// Both firewalls get the same ports in the same order: in nftables they stand between
/// braces with commas between them, and in iptables only the hyphen of each range has
/// become a colon.
pub proof fn ports_are_written_for_each_firewall(ports: Seq<Seq<char>>)
    requires
        ports.len() > 0,
        forall|i: int| 0 <= i < ports.len() ==> !(#[trigger] ports[i]).contains(','),
    ensures
        ({
            let set = port_set(ports);
            &&& set.len() >= 2 && set[0] == '{' && set.last() == '}'
            &&& crate::text::split(set.subrange(1, set.len() - 1), ',') == ports
        }),
        colon_ports(ports).len() == joined(ports, ","@).len(),
        forall|i: int|
            0 <= i < colon_ports(ports).len() ==> #[trigger] colon_ports(ports)[i] == (if joined(
                ports,
                ","@,
            )[i] == '-' {
                ':'
            } else {
                joined(ports, ","@)[i]
            }),
{
    reveal_strlit("{");
    reveal_strlit("}");
    reveal_strlit(",");
    assert(","@ =~= seq![',']);
    let set = port_set(ports);
    assert(set.subrange(1, set.len() - 1) =~= joined(ports, ","@));
    crate::text::joined_pieces_come_back(ports, ',');
    lemma_colons(ports);
}

/// The rules capture exactly what they are given: one rule for each protocol that has
/// ports, first TCP and then UDP, which names that protocol, its ports and the queue; none
/// for a protocol without ports. Each must succeed.
pub proof fn the_given_ports_are_captured(
    prog: Seq<char>,
    q: Seq<char>,
    tcp: Seq<Seq<char>>,
    udp: Seq<Seq<char>>,
)
    ensures
        ({
            let s = nft_up(q, tcp, udp).skip(3);
            let t = ipt_setup(prog, q, tcp, udp).skip(2);
            let first: int = if tcp.len() > 0 {
                1
            } else {
                0
            };
            let both: int = if udp.len() > 0 {
                first + 1
            } else {
                first
            };
            &&& s.len() == both && t.len() == both + 2
            &&& forall|i: int|
                0 <= i < both ==> {
                    let proto = if i < first {
                        "tcp"@
                    } else {
                        "udp"@
                    };
                    let ports = if i < first {
                        tcp
                    } else {
                        udp
                    };
                    let a = (#[trigger] s[i]).command;
                    &&& a.program == "nft"@ && s[i].on_fail == OnFail::Abort
                    &&& a.args.len() == 12 && a.args[0] == "add"@ && a.args[1] == "rule"@
                    &&& a.args[5] == proto && a.args[6] == "dport"@
                    &&& a.args[7] == "{"@ + joined(ports, ","@) + "}"@ && a.args[10] == q
                }
            &&& forall|i: int|
                0 <= i < both ==> {
                    let proto = if i < first {
                        "tcp"@
                    } else {
                        "udp"@
                    };
                    let ports = if i < first {
                        tcp
                    } else {
                        udp
                    };
                    let a = (#[trigger] t[i]).command;
                    &&& a.program == prog && t[i].on_fail == OnFail::Abort
                    &&& a.args.len() == 15 && a.args[2] == "-A"@
                    &&& a.args[4] == "-p"@ && a.args[5] == proto && a.args[8] == "--dports"@
                    &&& a.args[9] == colon_ports(ports) && a.args[13] == q
                }
        }),
{
    let s = nft_up(q, tcp, udp).skip(3);
    let t = ipt_setup(prog, q, tcp, udp).skip(2);
    assert(s =~= nft_rules("tcp"@, tcp, q) + nft_rules("udp"@, udp, q));
    assert(t =~= ipt_rules(prog, "tcp"@, tcp, q) + ipt_rules(prog, "udp"@, udp, q) + seq![
        unless_jump(prog),
        must(prog, on_jump("-A"@)),
    ]);
}

/// IPv6 is captured as IPv4 is: the same rules come up under the ip6tables program, whose
/// name differs in the 6 alone, and their failure does not fail the whole.
pub proof fn both_versions_are_captured(
    q: Seq<char>,
    tcp: Seq<Seq<char>>,
    udp: Seq<Seq<char>>,
    i: int,
)
    requires
        0 <= i < 3,
    ensures
        ({
            let prog = ipt_programs()[i];
            let six = ip6_name(prog);
            let part = ipt_setup(six, q, tcp, udp);
            &&& six == "ip6"@ + prog.skip(2)
            &&& part.len() == ipt_setup(prog, q, tcp, udp).len()
            &&& forall|k: int|
                0 <= k < part.len() ==> (#[trigger] part[k]).command.program == six
                    && part[k].command.args == ipt_setup(prog, q, tcp, udp)[k].command.args
            &&& crate::text::begins(prog, "iptables"@)
        }),
{
    reveal_strlit("iptables-nft");
    reveal_strlit("iptables-legacy");
    reveal_strlit("iptables");
    reveal_strlit("ip6tables-nft");
    reveal_strlit("ip6tables-legacy");
    reveal_strlit("ip6tables");
    reveal_strlit("ip6");
    assert("iptables-nft"@.len() == 12 && "iptables-legacy"@.len() == 15 && "iptables"@.len() == 8);
    assert("ip6"@ + "iptables-nft"@.skip(2) =~= "ip6tables-nft"@);
    assert("ip6"@ + "iptables-legacy"@.skip(2) =~= "ip6tables-legacy"@);
    assert("ip6"@ + "iptables"@.skip(2) =~= "ip6tables"@);
    assert("iptables-nft"@.take(8) =~= "iptables"@);
    assert("iptables-legacy"@.take(8) =~= "iptables"@);
    assert("iptables"@.take(8) =~= "iptables"@);
}

/// The firewall that is used is the first that answers: nftables before iptables, and that
/// in its nftables variant first. None is used where none answers.
pub proof fn the_first_that_answers_is_used(outcomes: Seq<bool>, k: int)
    ensures
        0 <= k < outcomes.len() && outcomes[k] && (forall|j: int|
            0 <= j < k ==> !#[trigger] outcomes[j]) <==> first_success(outcomes) == Some(k),
        (forall|j: int| 0 <= j < outcomes.len() ==> !#[trigger] outcomes[j]) <==> first_success(
            outcomes,
        ) is None,
        probe_command(0).program == "nft"@,
        probe_command(1).program == "iptables-nft"@,
        probe_command(2).program == "iptables-legacy"@,
        probe_command(3).program == "iptables"@,
    decreases outcomes.len(),
{
    if outcomes.len() > 0 && !outcomes[0] {
        let t = outcomes.skip(1);
        the_first_that_answers_is_used(t, k - 1);
        assert forall|j: int| 0 <= j < t.len() implies t[j] == #[trigger] outcomes[j + 1] by {}
        if first_success(outcomes) == Some(k) {
            assert forall|j: int| 0 <= j < k implies !#[trigger] outcomes[j] by {
                if j > 0 {
                    assert(!t[j - 1]);
                }
            }
        }
        if forall|j: int| 0 <= j < t.len() ==> !#[trigger] t[j] {
            assert forall|j: int| 0 <= j < outcomes.len() implies !#[trigger] outcomes[j] by {
                if j > 0 {
                    assert(!t[j - 1]);
                }
            }
        }
    } else if outcomes.len() > 0 && first_success(outcomes) == Some(k) {
        assert(k == 0);
    }
}

/// Rules that a firewall lists are there; rules are missing only where it says so in its
/// error, in any letter case; any other error, such as a lack of rights, and a firewall that
/// is missing say nothing either way.
pub proof fn only_a_clear_answer_counts(i: int, p: Seq<char>, q: Seq<char>, e: Seq<char>)
    requires
        0 <= i < 4,
    ensures
        verdict(i, ReadingView::Listed) == Some(true),
        verdict(i, ReadingView::Missing) is None,
        verdict(i, ReadingView::Refused(p + "No such"@ + q)) == Some(false),
        verdict(0, ReadingView::Refused(p + "does not exist"@ + q)) == Some(false),
        i > 0 ==> verdict(i, ReadingView::Refused(p + "No chain"@ + q)) == Some(false),
        !contains(lowered(e), "no such"@) && !contains(lowered(e), "does not exist"@) && !contains(
            lowered(e),
            "no chain"@,
        ) ==> verdict(i, ReadingView::Refused(e)) is None,
{
    reveal_strlit("No such");
    reveal_strlit("no such");
    reveal_strlit("does not exist");
    reveal_strlit("No chain");
    reveal_strlit("no chain");
    lemma_lowered_holds(p, "No such"@, q, "no such"@);
    lemma_lowered_holds(p, "does not exist"@, q, "does not exist"@);
    lemma_lowered_holds(p, "No chain"@, q, "no chain"@);
}

proof fn lemma_lowered_holds(p: Seq<char>, w: Seq<char>, q: Seq<char>, small: Seq<char>)
    requires
        w.len() == small.len(),
        forall|i: int| 0 <= i < w.len() ==> crate::text::lower(#[trigger] w[i]) == small[i],
    ensures
        contains(lowered(p + w + q), small),
{
    let s = lowered(p + w + q);
    let n = p.len() as int;
    assert(s.subrange(n, n + small.len()) =~= small);
    assert(crate::text::at(s, n, small));
}

/// The first clear answer decides whether the rules are there, whatever the others say; where
/// no answer is clear nothing is known.
pub proof fn the_first_clear_answer_decides(rs: Seq<ReadingView>, i: int, k: int)
    ensures
        0 <= k < rs.len() && verdict(i + k, rs[k]) is Some && (forall|j: int|
            0 <= j < k ==> verdict(i + j, #[trigger] rs[j]) is None) ==> first_verdict(rs, i)
            == verdict(i + k, rs[k]),
        (forall|j: int| 0 <= j < rs.len() ==> verdict(i + j, #[trigger] rs[j]) is None)
            ==> first_verdict(rs, i) is None,
    decreases rs.len(),
{
    if rs.len() > 0 && verdict(i, rs[0]) is None {
        let t = rs.skip(1);
        the_first_clear_answer_decides(t, i + 1, k - 1);
        assert forall|j: int| 0 <= j < t.len() implies #[trigger] t[j] == rs[j + 1] by {}
        if forall|j: int| 0 <= j < rs.len() ==> verdict(i + j, #[trigger] rs[j]) is None {
            assert forall|j: int| 0 <= j < t.len() implies verdict(
                i + 1 + j,
                #[trigger] t[j],
            ) is None by {
                assert(t[j] == rs[j + 1]);
                assert(verdict(i + (j + 1), rs[j + 1]) is None);
            }
        }
        if 0 <= k < rs.len() && forall|j: int|
            0 <= j < k ==> verdict(i + j, #[trigger] rs[j]) is None {
            assert forall|j: int| 0 <= j < k - 1 implies verdict(
                i + 1 + j,
                #[trigger] t[j],
            ) is None by {
                assert(t[j] == rs[j + 1]);
                assert(verdict(i + (j + 1), rs[j + 1]) is None);
            }
        }
    } else if rs.len() > 0 {
        assert(verdict(i + 0, rs[0]) is Some);
    }
}

} // verus!
