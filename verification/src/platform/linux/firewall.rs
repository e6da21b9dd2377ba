//! What the scripts of the capture rules do to a firewall.
//!
//! A firewall is modelled by what its commands name: nftables has tables, iptables has
//! chains, rules in them, and jumps into them. A command does what it says where it can,
//! and else it fails and changes nothing. Which programs work, which of them share their
//! chains, and which rules are accepted is left open: the laws hold whatever the machine.
use vstd::prelude::*;

use super::nft::{IPT_CHAIN, NFT_TABLE};
use crate::script::OnFail;

verus! {

use super::nft::{
    add_chain, delete_table, down_all_script, down_script, if_works, ip6_name, ipt_down,
    ipt_programs, ipt_setup, ipt_teardown, ipt_up, jump_removal, nft_up, on_chain, on_jump,
    unless_jump, up_script,
};
use crate::script::{excused, follow, may, must, InvocationView, StepView};

// ── The model ───────────────────────────────────────────────────────────────

/// A chain of iptables: which chains it belongs to, and its name.
pub type Chain = (int, Seq<char>);

/// What is in a firewall.
#[verifier::ext_equal]
pub struct Firewall {
    /// The `inet` tables of nftables.
    pub tables: Set<Seq<char>>,
    /// The chains of iptables, with the number of their rules.
    pub chains: Map<Chain, nat>,
    /// How often `POSTROUTING` jumps into a chain.
    pub jumps: Map<Chain, nat>,
}

/// What a machine is like.
pub struct Machine {
    /// Whether a program works.
    pub works: spec_fn(Seq<char>) -> bool,
    /// On which chains a program works: two programs may work on the same ones.
    pub place: spec_fn(Seq<char>) -> int,
    /// Whether a command is accepted that adds a rule, or something to a table.
    pub accepts: spec_fn(InvocationView) -> bool,
}

/// What a command does.
pub enum Deed {
    AddTable(Seq<char>),
    DeleteTable(Seq<char>),
    /// Adds something to a table.
    FillTable(Seq<char>),
    NewChain(Seq<char>),
    /// Takes all rules out of a chain.
    Flush(Seq<char>),
    DeleteChain(Seq<char>),
    AddRule(Seq<char>),
    /// Asks for a jump into a chain.
    FindJump(Seq<char>),
    AddJump(Seq<char>),
    /// Takes one jump out.
    DeleteJump(Seq<char>),
    /// Asks whether the program works.
    Ask,
    Other,
}

/// What a command does, by its arguments.
pub open spec fn deed(a: Seq<Seq<char>>) -> Deed {
    if a.len() == 1 && a[0] == "-S"@ {
        Deed::Ask
    } else if a.len() < 4 {
        Deed::Other
    } else if a[0] == "-t"@ && a[1] == "mangle"@ {
        if a.len() == 6 && a[3] == "POSTROUTING"@ && a[4] == "-j"@ {
            if a[2] == "-C"@ {
                Deed::FindJump(a[5])
            } else if a[2] == "-A"@ {
                Deed::AddJump(a[5])
            } else if a[2] == "-D"@ {
                Deed::DeleteJump(a[5])
            } else {
                Deed::Other
            }
        } else if a.len() == 4 {
            if a[2] == "-N"@ {
                Deed::NewChain(a[3])
            } else if a[2] == "-F"@ {
                Deed::Flush(a[3])
            } else if a[2] == "-X"@ {
                Deed::DeleteChain(a[3])
            } else {
                Deed::Other
            }
        } else if a[2] == "-A"@ {
            Deed::AddRule(a[3])
        } else {
            Deed::Other
        }
    } else if a[2] == "inet"@ {
        if a.len() == 4 && a[0] == "delete"@ && a[1] == "table"@ {
            Deed::DeleteTable(a[3])
        } else if a.len() == 4 && a[0] == "add"@ && a[1] == "table"@ {
            Deed::AddTable(a[3])
        } else if a[0] == "add"@ {
            Deed::FillTable(a[3])
        } else {
            Deed::Other
        }
    } else {
        Deed::Other
    }
}

/// How often there is a jump into a chain.
pub open spec fn jumps_to(fw: Firewall, k: Chain) -> nat {
    if fw.jumps.dom().contains(k) {
        fw.jumps[k]
    } else {
        0
    }
}

/// The firewall after a command, and whether the command succeeded.
pub open spec fn effect(fw: Firewall, c: InvocationView, m: Machine) -> (Firewall, bool) {
    let place = (m.place)(c.program);
    if !(m.works)(c.program) {
        (fw, false)
    } else {
        match deed(c.args) {
            Deed::AddTable(t) => (Firewall { tables: fw.tables.insert(t), ..fw }, true),
            Deed::DeleteTable(t) => if fw.tables.contains(t) {
                (Firewall { tables: fw.tables.remove(t), ..fw }, true)
            } else {
                (fw, false)
            },
            Deed::FillTable(t) => (fw, fw.tables.contains(t) && (m.accepts)(c)),
            Deed::NewChain(n) => if fw.chains.dom().contains((place, n)) {
                (fw, false)
            } else {
                (Firewall { chains: fw.chains.insert((place, n), 0), ..fw }, true)
            },
            Deed::Flush(n) => if fw.chains.dom().contains((place, n)) {
                (Firewall { chains: fw.chains.insert((place, n), 0), ..fw }, true)
            } else {
                (fw, false)
            },
            Deed::DeleteChain(n) => if fw.chains.dom().contains((place, n)) && fw.chains[(place, n)]
                == 0 && jumps_to(fw, (place, n)) == 0 {
                (Firewall { chains: fw.chains.remove((place, n)), ..fw }, true)
            } else {
                (fw, false)
            },
            Deed::AddRule(n) => if fw.chains.dom().contains((place, n)) && (m.accepts)(c) {
                (
                    Firewall {
                        chains: fw.chains.insert((place, n), fw.chains[(place, n)] + 1),
                        ..fw
                    },
                    true,
                )
            } else {
                (fw, false)
            },
            Deed::FindJump(n) => (fw, jumps_to(fw, (place, n)) > 0),
            Deed::AddJump(n) => if fw.chains.dom().contains((place, n)) {
                (
                    Firewall {
                        jumps: fw.jumps.insert((place, n), jumps_to(fw, (place, n)) + 1),
                        ..fw
                    },
                    true,
                )
            } else {
                (fw, false)
            },
            Deed::DeleteJump(n) => if jumps_to(fw, (place, n)) > 0 {
                (
                    Firewall {
                        jumps: fw.jumps.insert(
                            (place, n),
                            (jumps_to(fw, (place, n)) - 1) as nat,
                        ),
                        ..fw
                    },
                    true,
                )
            } else {
                (fw, false)
            },
            Deed::Ask => (fw, true),
            Deed::Other => (fw, false),
        }
    }
}

/// The firewall after a script, from position `i` on, and whether the script succeeded.
pub open spec fn run(s: Seq<StepView>, i: int, fw: Firewall, m: Machine) -> (Firewall, bool)
    decreases s.len() - i,
{
    if i < 0 || i >= s.len() {
        (fw, true)
    } else {
        let (after, ok) = effect(fw, s[i].command, m);
        match follow(s, i, ok) {
            Some(j) => run(s, j, after, m),
            None => (after, false),
        }
    }
}

/// The chain of this program, as an iptables program sees it.
pub open spec fn own_chain(m: Machine, prog: Seq<char>) -> Chain {
    ((m.place)(prog), IPT_CHAIN@)
}

/// Neither the chain nor a jump into it is there.
pub open spec fn gone(fw: Firewall, k: Chain) -> bool {
    !fw.chains.dom().contains(k) && jumps_to(fw, k) == 0
}

/// Whatever belongs to anyone else is as it was: every table but the one of this program,
/// every chain with its rules, and the jumps into it.
pub open spec fn foreign_kept(a: Firewall, b: Firewall) -> bool {
    &&& forall|t: Seq<char>| t != NFT_TABLE@ ==> (#[trigger] a.tables.contains(t)) == b.tables.contains(t)
    &&& forall|k: Chain|
        k.1 != IPT_CHAIN@ ==> {
            &&& (#[trigger] a.chains.dom().contains(k)) == b.chains.dom().contains(k)
            &&& a.chains.dom().contains(k) ==> a.chains[k] == b.chains[k]
            &&& jumps_to(a, k) == jumps_to(b, k)
        }
}

/// `b` has no table, no chain and no jump that `a` has not.
pub open spec fn no_more(a: Firewall, b: Firewall) -> bool {
    &&& forall|t: Seq<char>| #[trigger] b.tables.contains(t) ==> a.tables.contains(t)
    &&& forall|k: Chain| #[trigger] b.chains.dom().contains(k) ==> a.chains.dom().contains(k)
    &&& forall|k: Chain| #[trigger] jumps_to(b, k) <= jumps_to(a, k)
}

// ── Single commands ─────────────────────────────────────────────────────────

proof fn lemma_flags()
    ensures
        "-S"@.len() == 2,
        "-t"@.len() == 2,
        "inet"@.len() == 4,
        "delete"@.len() == 6,
        "add"@.len() == 3,
        "POSTROUTING"@ != IPT_CHAIN@,
        "-C"@ != "-A"@,
        "-C"@ != "-D"@,
        "-A"@ != "-D"@,
        "-N"@ != "-F"@,
        "-N"@ != "-X"@,
        "-F"@ != "-X"@,
{
    reveal_strlit("-S");
    reveal_strlit("-t");
    reveal_strlit("inet");
    reveal_strlit("delete");
    reveal_strlit("add");
    reveal_strlit("POSTROUTING");
    reveal_strlit("ZAPRUST");
    reveal_strlit("-C");
    reveal_strlit("-A");
    reveal_strlit("-D");
    reveal_strlit("-N");
    reveal_strlit("-F");
    reveal_strlit("-X");
    assert("-C"@[1] == 'C' && "-A"@[1] == 'A' && "-D"@[1] == 'D');
    assert("-N"@[1] == 'N' && "-F"@[1] == 'F' && "-X"@[1] == 'X');
    assert("POSTROUTING"@.len() == 11 && "ZAPRUST"@.len() == 7);
}

proof fn lemma_deeds(proto: Seq<char>, ports: Seq<Seq<char>>, q: Seq<char>)
    ensures
        deed(seq!["-S"@]) == Deed::Ask,
        deed(on_jump("-C"@)) == Deed::FindJump(IPT_CHAIN@),
        deed(on_jump("-A"@)) == Deed::AddJump(IPT_CHAIN@),
        deed(on_jump("-D"@)) == Deed::DeleteJump(IPT_CHAIN@),
        deed(on_chain("-N"@)) == Deed::NewChain(IPT_CHAIN@),
        deed(on_chain("-F"@)) == Deed::Flush(IPT_CHAIN@),
        deed(on_chain("-X"@)) == Deed::DeleteChain(IPT_CHAIN@),
        deed(super::nft::ipt_rule(proto, ports, q)) == Deed::AddRule(IPT_CHAIN@),
        deed(delete_table()) == Deed::DeleteTable(NFT_TABLE@),
        deed(seq!["add"@, "table"@, "inet"@, NFT_TABLE@]) == Deed::AddTable(NFT_TABLE@),
        deed(add_chain()) == Deed::FillTable(NFT_TABLE@),
        deed(super::nft::nft_rule(proto, ports, q)) == Deed::FillTable(NFT_TABLE@),
{
    lemma_flags();
}

// ── Parts of scripts ────────────────────────────────────────────────────────

/// No step leads beyond the end of the script.
spec fn contained(s: Seq<StepView>) -> bool {
    forall|i: int|
        0 <= i < s.len() ==> {
            &&& i + 1 + (#[trigger] s[i]).on_ok <= s.len()
            &&& match s[i].on_fail {
                OnFail::Skip(k) => i + 1 + k <= s.len(),
                OnFail::Warn(k) => i + 1 + k <= s.len(),
                OnFail::Abort => true,
            }
        }
}

proof fn lemma_run_tail(a: Seq<StepView>, b: Seq<StepView>, i: int, fw: Firewall, m: Machine)
    requires
        contained(b),
        0 <= i <= b.len(),
    ensures
        run(a + b, a.len() + i, fw, m) == run(b, i, fw, m),
    decreases b.len() - i,
{
    let s = a + b;
    if i < b.len() {
        assert(s[a.len() + i] == b[i]);
        let (after, ok) = effect(fw, b[i].command, m);
        match follow(b, i, ok) {
            Some(j) => {
                assert(follow(s, a.len() + i, ok) == Some(a.len() + j));
                lemma_run_tail(a, b, j, after, m);
            },
            None => {},
        }
    }
}

proof fn lemma_run_head(a: Seq<StepView>, b: Seq<StepView>, i: int, fw: Firewall, m: Machine)
    requires
        contained(a),
        contained(b),
        0 <= i <= a.len(),
    ensures
        run(a + b, i, fw, m) == (if run(a, i, fw, m).1 {
            run(b, 0, run(a, i, fw, m).0, m)
        } else {
            run(a, i, fw, m)
        }),
    decreases a.len() - i,
{
    let s = a + b;
    if i < a.len() {
        assert(s[i] == a[i]);
        let (after, ok) = effect(fw, a[i].command, m);
        match follow(a, i, ok) {
            Some(j) => {
                assert(follow(s, i, ok) == Some(j));
                lemma_run_head(a, b, j, after, m);
            },
            None => {},
        }
    } else {
        lemma_run_tail(a, b, 0, fw, m);
    }
}

proof fn lemma_contained(a: Seq<StepView>, b: Seq<StepView>)
    requires
        contained(a),
        contained(b),
    ensures
        contained(a + b),
{
    let s = a + b;
    assert forall|i: int| 0 <= i < s.len() implies {
        &&& i + 1 + (#[trigger] s[i]).on_ok <= s.len()
        &&& match s[i].on_fail {
            OnFail::Skip(k) => i + 1 + k <= s.len(),
            OnFail::Warn(k) => i + 1 + k <= s.len(),
            OnFail::Abort => true,
        }
    } by {
        if i < a.len() {
            assert(s[i] == a[i]);
        } else {
            assert(s[i] == b[i - a.len()]);
        }
    }
}

proof fn lemma_if_works(prog: Seq<char>, part: Seq<StepView>, fw: Firewall, m: Machine)
    requires
        contained(part),
        part.len() <= 100,
    ensures
        contained(if_works(prog, part)),
        if_works(prog, part).len() == part.len() + 1,
        run(if_works(prog, part), 0, fw, m) == (if (m.works)(prog) {
            run(part, 0, fw, m)
        } else {
            (fw, true)
        }),
{
    lemma_deeds(""@, Seq::empty(), ""@);
    let s = if_works(prog, part);
    let head = s.take(1);
    assert(s =~= head + part);
    assert(s[0].on_ok == 0 && s[0].on_fail == OnFail::Skip(part.len() as usize));
    assert forall|i: int| 1 <= i < s.len() implies #[trigger] s[i] == part[i - 1] by {}
    assert(contained(s));
    assert(s[0].command.args == seq!["-S"@] && s[0].command.program == prog);
    assert(effect(fw, s[0].command, m) == (fw, (m.works)(prog)));
    if (m.works)(prog) {
        assert(follow(s, 0, true) == Some(1int));
        lemma_run_tail(head, part, 0, fw, m);
    } else {
        assert(follow(s, 0, false) == Some(s.len() as int));
        assert(run(s, s.len() as int, fw, m) == (fw, true));
    }
}

// ── Taking down ─────────────────────────────────────────────────────────────

proof fn lemma_jump_removal(prog: Seq<char>, i: int, fw: Firewall, m: Machine)
    requires
        0 <= i <= 8,
    ensures
        contained(jump_removal(prog)),
        ({
            let k = own_chain(m, prog);
            let r = run(jump_removal(prog), 2 * i, fw, m);
            &&& r.1
            &&& !(m.works)(prog) || jumps_to(fw, k) == 0 ==> r.0 == fw
            &&& (m.works)(prog) ==> jumps_to(r.0, k) == (if jumps_to(fw, k) <= 8 - i {
                0
            } else {
                jumps_to(fw, k) - (8 - i)
            })
            &&& no_more(fw, r.0)
            &&& foreign_kept(fw, r.0)
        }),
    decreases 8 - i,
{
    lemma_deeds(""@, Seq::empty(), ""@);
    let s = jump_removal(prog);
    let k = own_chain(m, prog);
    assert(s.len() == 16);
    assert forall|j: int| 0 <= j < s.len() implies {
        &&& j + 1 + (#[trigger] s[j]).on_ok <= s.len()
        &&& match s[j].on_fail {
            OnFail::Skip(n) => j + 1 + n <= s.len(),
            OnFail::Warn(n) => j + 1 + n <= s.len(),
            OnFail::Abort => true,
        }
    } by {}
    if i < 8 {
        assert((2 * i) % 2 == 0);
        assert((2 * i + 1) % 2 == 1);
        let ask = s[2 * i];
        let out = s[2 * i + 1];
        assert(ask.command.args == on_jump("-C"@) && ask.command.program == prog);
        assert(out == may(prog, on_jump("-D"@)));
        if !(m.works)(prog) || jumps_to(fw, k) == 0 {
            assert(effect(fw, ask.command, m) == (fw, false));
            assert(follow(s, 2 * i, false) == Some(16int));
            assert(run(s, 16, fw, m) == (fw, true));
        } else {
            assert(effect(fw, ask.command, m) == (fw, true));
            assert(follow(s, 2 * i, true) == Some(2 * i + 1));
            let (less, ok) = effect(fw, out.command, m);
            assert(ok);
            assert(follow(s, 2 * i + 1, true) == Some(2 * i + 2));
            assert(run(s, 2 * i + 1, fw, m) == run(s, 2 * i + 2, less, m));
            assert(jumps_to(less, k) == jumps_to(fw, k) - 1);
            lemma_jump_removal(prog, i + 1, less, m);
            assert(2 * (i + 1) == 2 * i + 2);
            assert(no_more(fw, less));
            assert(foreign_kept(fw, less));
        }
    }
}

proof fn lemma_teardown(prog: Seq<char>, fw: Firewall, m: Machine)
    ensures
        contained(ipt_teardown(prog)),
        ipt_teardown(prog).len() == 18,
        ({
            let k = own_chain(m, prog);
            let r = run(ipt_teardown(prog), 0, fw, m);
            &&& r.1
            &&& !(m.works)(prog) || gone(fw, k) ==> r.0 == fw
            &&& (m.works)(prog) ==> jumps_to(r.0, k) == (if jumps_to(fw, k) <= 8 {
                0
            } else {
                jumps_to(fw, k) - 8
            })
            &&& (m.works)(prog) && jumps_to(fw, k) <= 8 ==> gone(r.0, k)
            &&& no_more(fw, r.0)
            &&& foreign_kept(fw, r.0)
        }),
{
    lemma_deeds(""@, Seq::empty(), ""@);
    let k = own_chain(m, prog);
    let a = jump_removal(prog);
    let b = seq![may(prog, on_chain("-F"@)), may(prog, on_chain("-X"@))];
    assert(ipt_teardown(prog) == a + b);
    lemma_jump_removal(prog, 0, fw, m);
    assert(contained(b));
    lemma_contained(a, b);
    lemma_run_head(a, b, 0, fw, m);
    let f1 = run(a, 0, fw, m).0;
    let (f2, ok2) = effect(f1, b[0].command, m);
    let (f3, ok3) = effect(f2, b[1].command, m);
    assert(follow(b, 0, ok2) == Some(1int));
    assert(follow(b, 1, ok3) == Some(2int));
    assert(run(b, 2, f3, m) == (f3, true));
    assert(run(b, 1, f2, m) == (f3, true));
    assert(run(b, 0, f1, m) == (f3, true));
    assert(no_more(f1, f2) && foreign_kept(f1, f2));
    assert(no_more(f2, f3) && foreign_kept(f2, f3));
}

proof fn lemma_ipt_down(prog: Seq<char>, fw: Firewall, m: Machine)
    ensures
        contained(ipt_down(prog)),
        ({
            let r = run(ipt_down(prog), 0, fw, m);
            let k = own_chain(m, prog);
            let six = own_chain(m, ip6_name(prog));
            &&& r.1
            &&& (m.works)(prog) && jumps_to(fw, k) <= 8 ==> gone(r.0, k)
            &&& (m.works)(prog) && jumps_to(fw, k) <= 16 ==> jumps_to(r.0, k) <= 8
            &&& (m.works)(ip6_name(prog)) && jumps_to(fw, six) <= 8 ==> gone(r.0, six)
            &&& (m.works)(ip6_name(prog)) && jumps_to(fw, six) <= 16 ==> jumps_to(r.0, six) <= 8
            &&& (!(m.works)(prog) || gone(fw, k)) && (!(m.works)(ip6_name(prog)) || gone(fw, six))
                ==> r.0 == fw
            &&& no_more(fw, r.0)
            &&& foreign_kept(fw, r.0)
        }),
{
    let p6 = ip6_name(prog);
    let k = own_chain(m, prog);
    let six = own_chain(m, p6);
    let a = ipt_teardown(prog);
    let t = ipt_teardown(p6);
    let b = if_works(p6, t);
    lemma_teardown(prog, fw, m);
    let f1 = run(a, 0, fw, m).0;
    lemma_teardown(p6, f1, m);
    lemma_if_works(p6, t, f1, m);
    lemma_contained(a, b);
    lemma_run_head(a, b, 0, fw, m);
    let f2 = run(b, 0, f1, m).0;
    assert(no_more(f1, f2) && foreign_kept(f1, f2));
    assert(jumps_to(f2, k) <= jumps_to(f1, k));
    assert(jumps_to(f1, six) <= jumps_to(fw, six));
    if gone(f1, k) {
        assert(f2.chains.dom().contains(k) ==> f1.chains.dom().contains(k));
    }
}

// ── Bringing up ─────────────────────────────────────────────────────────────

/// A script that makes the chain, and then the jump into it where there is none.
spec fn makes_chain(s: Seq<StepView>, prog: Seq<char>) -> bool {
    let n = s.len() as int;
    &&& n >= 2
    &&& forall|i: int|
        0 <= i < n - 2 ==> {
            let x = #[trigger] s[i];
            &&& x.command.program == prog
            &&& deed(x.command.args) == Deed::NewChain(IPT_CHAIN@) || deed(x.command.args)
                == Deed::Flush(IPT_CHAIN@) || deed(x.command.args) == Deed::AddRule(IPT_CHAIN@)
            &&& x.on_ok == 0
            &&& x.on_fail == OnFail::Abort || x.on_fail == OnFail::Skip(0) || x.on_fail
                == OnFail::Warn((n - i - 1) as usize)
        }
    &&& s[n - 2].command == (InvocationView { program: prog, args: on_jump("-C"@) })
    &&& s[n - 2].on_ok == 1 && s[n - 2].on_fail == OnFail::Skip(0)
    &&& s[n - 1].command == (InvocationView { program: prog, args: on_jump("-A"@) })
    &&& s[n - 1].on_ok == 0
    &&& s[n - 1].on_fail == OnFail::Abort || s[n - 1].on_fail == OnFail::Warn(0)
    &&& n <= 100
}

/// `b` differs from `a` in the chain of this program alone, and has at most one jump into
/// it where `a` has none.
spec fn chain_made(a: Firewall, b: Firewall, k: Chain) -> bool {
    &&& b.tables == a.tables
    &&& jumps_to(b, k) <= jumps_to(a, k) || jumps_to(b, k) <= 1
    &&& forall|x: Chain| x != k ==> #[trigger] jumps_to(b, x) == jumps_to(a, x)
    &&& foreign_kept(a, b)
}

proof fn lemma_makes_chain(s: Seq<StepView>, prog: Seq<char>, i: int, fw: Firewall, m: Machine)
    requires
        makes_chain(s, prog),
        0 <= i <= s.len() - 2,
    ensures
        chain_made(fw, run(s, i, fw, m).0, own_chain(m, prog)),
    decreases s.len() - i,
{
    lemma_deeds(""@, Seq::empty(), ""@);
    let n = s.len() as int;
    let k = own_chain(m, prog);
    let (after, ok) = effect(fw, s[i].command, m);
    if i < n - 2 {
        assert(after.jumps == fw.jumps && after.tables == fw.tables);
        assert(chain_made(fw, after, k));
        match follow(s, i, ok) {
            Some(j) => {
                assert(j == i + 1 || j == n);
                if j == n {
                    assert(run(s, n, after, m) == (after, true));
                } else {
                    lemma_makes_chain(s, prog, j, after, m);
                }
            },
            None => {},
        }
    } else {
        assert(after == fw);
        assert(follow(s, i, true) == Some(n));
        assert(follow(s, i, false) == Some(n - 1));
        assert(run(s, n, fw, m) == (fw, true));
        if !ok {
            let (last, done) = effect(fw, s[n - 1].command, m);
            assert(chain_made(fw, last, k));
            assert(run(s, n, last, m) == (last, true));
            assert(run(s, n - 1, fw, m).0 == last);
        }
    }
}

proof fn lemma_setup(
    prog: Seq<char>,
    q: Seq<char>,
    tcp: Seq<Seq<char>>,
    udp: Seq<Seq<char>>,
    fw: Firewall,
    m: Machine,
)
    ensures
        contained(ipt_setup(prog, q, tcp, udp)),
        contained(excused(ipt_setup(prog, q, tcp, udp), true)),
        ipt_setup(prog, q, tcp, udp).len() <= 6,
        chain_made(fw, run(ipt_setup(prog, q, tcp, udp), 0, fw, m).0, own_chain(m, prog)),
        chain_made(
            fw,
            run(excused(ipt_setup(prog, q, tcp, udp), true), 0, fw, m).0,
            own_chain(m, prog),
        ),
{
    lemma_deeds("tcp"@, tcp, q);
    lemma_deeds("udp"@, udp, q);
    let s = ipt_setup(prog, q, tcp, udp);
    let n = s.len() as int;
    let e = excused(s, true);
    assert(s[n - 2] == unless_jump(prog));
    assert(s[n - 1] == must(prog, on_jump("-A"@)));
    assert(makes_chain(s, prog));
    assert forall|i: int| 0 <= i < n implies (#[trigger] e[i]).command == s[i].command && e[i].on_ok
        == s[i].on_ok by {}
    assert(makes_chain(e, prog));
    lemma_makes_chain(s, prog, 0, fw, m);
    lemma_makes_chain(e, prog, 0, fw, m);
}

proof fn lemma_ipt_up(
    prog: Seq<char>,
    q: Seq<char>,
    tcp: Seq<Seq<char>>,
    udp: Seq<Seq<char>>,
    fw: Firewall,
    m: Machine,
)
    requires
        jumps_to(fw, own_chain(m, prog)) <= 16,
        jumps_to(fw, own_chain(m, ip6_name(prog))) <= 16,
    ensures
        ({
            let r = run(ipt_up(prog, q, tcp, udp), 0, fw, m).0;
            &&& (m.works)(prog) ==> jumps_to(r, own_chain(m, prog)) <= 8
            &&& (m.works)(ip6_name(prog)) ==> jumps_to(r, own_chain(m, ip6_name(prog))) <= 8
            &&& foreign_kept(fw, r)
        }),
{
    let p6 = ip6_name(prog);
    let k = own_chain(m, prog);
    let six = own_chain(m, p6);
    let a = ipt_down(prog);
    let b = ipt_setup(prog, q, tcp, udp);
    let e = excused(ipt_setup(p6, q, tcp, udp), true);
    let c = if_works(p6, e);
    lemma_ipt_down(prog, fw, m);
    let f1 = run(a, 0, fw, m).0;
    lemma_setup(prog, q, tcp, udp, f1, m);
    let f2 = run(b, 0, f1, m).0;
    lemma_setup(p6, q, tcp, udp, f2, m);
    lemma_if_works(p6, e, f2, m);
    let f3 = run(c, 0, f2, m).0;
    lemma_contained(a, b);
    lemma_run_head(a, b, 0, fw, m);
    lemma_run_head(a + b, c, 0, fw, m);
    assert(ipt_up(prog, q, tcp, udp) == a + b + c);
    assert(foreign_kept(fw, f2));
    assert(foreign_kept(fw, f3));
    assert(jumps_to(f2, six) <= 8 || !(m.works)(p6)) by {
        if six != k {
            assert(jumps_to(f2, six) == jumps_to(f1, six));
        }
    }
    assert(jumps_to(f3, k) <= 8 || !(m.works)(prog)) by {
        if six != k {
            assert(jumps_to(f3, k) == jumps_to(f2, k));
        }
    }
}

proof fn lemma_nft_up(
    q: Seq<char>,
    tcp: Seq<Seq<char>>,
    udp: Seq<Seq<char>>,
    i: int,
    fw: Firewall,
    m: Machine,
)
    requires
        0 <= i <= nft_up(q, tcp, udp).len(),
        i >= 2 ==> fw.tables.contains(NFT_TABLE@),
    ensures
        ({
            let r = run(nft_up(q, tcp, udp), i, fw, m);
            &&& r.1 ==> r.0.tables.contains(NFT_TABLE@)
            &&& r.1 && i < 2 ==> (m.works)("nft"@)
            &&& foreign_kept(fw, r.0)
        }),
    decreases nft_up(q, tcp, udp).len() - i,
{
    lemma_deeds("tcp"@, tcp, q);
    lemma_deeds("udp"@, udp, q);
    let s = nft_up(q, tcp, udp);
    if i < s.len() {
        assert(s[i].on_ok == 0);
        assert(s[i].command.program == "nft"@);
        assert(i == 0 ==> s[i] == may("nft"@, delete_table()));
        assert(i == 1 ==> s[i] == must("nft"@, seq!["add"@, "table"@, "inet"@, NFT_TABLE@]));
        assert(i >= 2 ==> deed(s[i].command.args) == Deed::FillTable(NFT_TABLE@));
        let (after, ok) = effect(fw, s[i].command, m);
        assert(foreign_kept(fw, after));
        match follow(s, i, ok) {
            Some(j) => {
                assert(j == i + 1);
                lemma_nft_up(q, tcp, udp, i + 1, after, m);
            },
            None => {},
        }
    }
}

// ── The laws ────────────────────────────────────────────────────────────────

/// Taking down undoes bringing up, whatever the firewall held before, whichever ports were
/// named, and whether or not bringing up succeeded: afterwards neither the table, nor the
/// chain, nor a jump into it is there for a program that works. Taking down succeeds after
/// a success, in iptables in any case; and whatever belongs to anyone else is as it was.
/// (Each run takes at most eight jumps into a chain out, so there may be no more of them
/// than two runs can take.)
pub proof fn down_undoes_up(
    b: Option<Seq<char>>,
    q: Seq<char>,
    tcp: Seq<Seq<char>>,
    udp: Seq<Seq<char>>,
    fw: Firewall,
    m: Machine,
)
    requires
        b matches Some(prog) ==> jumps_to(fw, own_chain(m, prog)) <= 16 && jumps_to(
            fw,
            own_chain(m, ip6_name(prog)),
        ) <= 16,
    ensures
        ({
            let up = run(up_script(b, q, tcp, udp), 0, fw, m);
            let down = run(down_script(b), 0, up.0, m);
            &&& up.1 || b is Some ==> down.1
            &&& foreign_kept(fw, down.0)
            &&& match b {
                None => (m.works)("nft"@) ==> !down.0.tables.contains(NFT_TABLE@),
                Some(prog) => {
                    &&& (m.works)(prog) ==> gone(down.0, own_chain(m, prog))
                    &&& (m.works)(ip6_name(prog)) ==> gone(down.0, own_chain(m, ip6_name(prog)))
                },
            }
        }),
{
    let up = run(up_script(b, q, tcp, udp), 0, fw, m);
    let down = run(down_script(b), 0, up.0, m);
    match b {
        None => {
            lemma_deeds(""@, Seq::empty(), ""@);
            lemma_nft_up(q, tcp, udp, 0, fw, m);
            let s = down_script(b);
            assert(s.len() == 1 && s[0] == must("nft"@, delete_table()));
            let (after, ok) = effect(up.0, s[0].command, m);
            assert(foreign_kept(up.0, after));
            assert(ok ==> follow(s, 0, ok) == Some(1int));
            assert(run(s, 1, after, m) == (after, true));
            assert(down == (after, ok));
        },
        Some(prog) => {
            lemma_ipt_up(prog, q, tcp, udp, fw, m);
            lemma_ipt_down(prog, up.0, m);
        },
    }
}

/// What taking everything down leaves: nothing of this program in any firewall whose program
/// works.
pub open spec fn all_gone(fw: Firewall, m: Machine) -> bool {
    &&& (m.works)("nft"@) ==> !fw.tables.contains(NFT_TABLE@)
    &&& forall|i: int|
        0 <= i < 3 ==> {
            let prog = #[trigger] ipt_programs()[i];
            &&& (m.works)(prog) ==> gone(fw, own_chain(m, prog))
            &&& (m.works)(ip6_name(prog)) ==> gone(fw, own_chain(m, ip6_name(prog)))
        }
}

proof fn lemma_all_gone_stays(a: Firewall, b: Firewall, m: Machine)
    requires
        no_more(a, b),
    ensures
        forall|k: Chain| gone(a, k) ==> #[trigger] gone(b, k),
        a.tables.contains(NFT_TABLE@) || !b.tables.contains(NFT_TABLE@),
{
    assert forall|k: Chain| gone(a, k) implies #[trigger] gone(b, k) by {
        assert(jumps_to(b, k) <= jumps_to(a, k));
        assert(b.chains.dom().contains(k) ==> a.chains.dom().contains(k));
    }
}

/// Taking everything down once is enough: where there are at most eight jumps into each
/// chain, nothing of this program is left in any firewall whose program works, whatever
/// single commands answer; what belongs to anyone else is as it was; and a second run
/// changes nothing more.
pub proof fn down_all_is_final(fw: Firewall, m: Machine)
    requires
        forall|i: int|
            0 <= i < 3 ==> jumps_to(fw, own_chain(m, #[trigger] ipt_programs()[i])) <= 8
                && jumps_to(fw, own_chain(m, ip6_name(ipt_programs()[i]))) <= 8,
    ensures
        ({
            let once = run(down_all_script(), 0, fw, m);
            &&& once.1
            &&& all_gone(once.0, m)
            &&& foreign_kept(fw, once.0)
            &&& run(down_all_script(), 0, once.0, m) == (once.0, true)
        }),
{
    let p0 = ipt_programs()[0];
    let p1 = ipt_programs()[1];
    let p2 = ipt_programs()[2];
    let once = run(down_all_script(), 0, fw, m).0;
    lemma_down_all(fw, m);
    let f0 = effect(fw, may("nft"@, delete_table()).command, m).0;
    let f1 = run(ipt_down(p0), 0, f0, m).0;
    let f2 = run(ipt_down(p1), 0, f1, m).0;
    assert(jumps_to(f0, own_chain(m, p0)) <= 8 && jumps_to(f0, own_chain(m, ip6_name(p0))) <= 8);
    assert(jumps_to(f1, own_chain(m, p1)) <= jumps_to(f0, own_chain(m, p1)));
    assert(jumps_to(f1, own_chain(m, ip6_name(p1))) <= jumps_to(f0, own_chain(m, ip6_name(p1))));
    assert(jumps_to(f1, own_chain(m, p2)) <= jumps_to(f0, own_chain(m, p2)));
    assert(jumps_to(f1, own_chain(m, ip6_name(p2))) <= jumps_to(f0, own_chain(m, ip6_name(p2))));
    assert(jumps_to(f2, own_chain(m, p2)) <= jumps_to(f1, own_chain(m, p2)));
    assert(jumps_to(f2, own_chain(m, ip6_name(p2))) <= jumps_to(f1, own_chain(m, ip6_name(p2))));
    lemma_all_gone_stays(f0, f1, m);
    lemma_all_gone_stays(f1, f2, m);
    lemma_all_gone_stays(f2, once, m);
    assert(all_gone(once, m));
    // The second run.
    lemma_down_all(once, m);
    assert(effect(once, may("nft"@, delete_table()).command, m).0 == once);
}

proof fn lemma_down_all(fw: Firewall, m: Machine)
    ensures
        ({
            let f0 = effect(fw, may("nft"@, delete_table()).command, m).0;
            let p0 = ipt_programs()[0];
            let p1 = ipt_programs()[1];
            let p2 = ipt_programs()[2];
            let f1 = run(ipt_down(p0), 0, f0, m).0;
            let f2 = run(ipt_down(p1), 0, f1, m).0;
            let f3 = run(ipt_down(p2), 0, f2, m).0;
            &&& run(down_all_script(), 0, fw, m) == (f3, true)
            &&& no_more(fw, f0) && foreign_kept(fw, f0)
            &&& (m.works)("nft"@) ==> !f0.tables.contains(NFT_TABLE@)
            &&& !(m.works)("nft"@) || !fw.tables.contains(NFT_TABLE@) ==> f0 == fw
            &&& down_facts(p0, f0, f1, m)
            &&& down_facts(p1, f1, f2, m)
            &&& down_facts(p2, f2, f3, m)
            &&& foreign_kept(fw, f3)
        }),
{
    lemma_deeds(""@, Seq::empty(), ""@);
    let first = may("nft"@, delete_table());
    let (f0, ok) = effect(fw, first.command, m);
    let p0 = ipt_programs()[0];
    let p1 = ipt_programs()[1];
    let p2 = ipt_programs()[2];
    let h = seq![first];
    let f1 = run(ipt_down(p0), 0, f0, m).0;
    let f2 = run(ipt_down(p1), 0, f1, m).0;
    let f3 = run(ipt_down(p2), 0, f2, m).0;
    lemma_ipt_down(p0, f0, m);
    lemma_ipt_down(p1, f1, m);
    lemma_ipt_down(p2, f2, m);
    assert(contained(h));
    assert(follow(h, 0, ok) == Some(1int));
    assert(run(h, 1, f0, m) == (f0, true));
    assert(run(h, 0, fw, m) == (f0, true));
    lemma_contained(h, ipt_down(p0));
    lemma_contained(h + ipt_down(p0), ipt_down(p1));
    lemma_run_head(h, ipt_down(p0), 0, fw, m);
    lemma_run_head(h + ipt_down(p0), ipt_down(p1), 0, fw, m);
    lemma_run_head(h + ipt_down(p0) + ipt_down(p1), ipt_down(p2), 0, fw, m);
    assert(down_all_script() == h + ipt_down(p0) + ipt_down(p1) + ipt_down(p2));
    assert(foreign_kept(fw, f1));
    assert(foreign_kept(fw, f2));
    assert(foreign_kept(fw, f3));
}

spec fn down_facts(prog: Seq<char>, a: Firewall, b: Firewall, m: Machine) -> bool {
    let k = own_chain(m, prog);
    let six = own_chain(m, ip6_name(prog));
    &&& (m.works)(prog) && jumps_to(a, k) <= 8 ==> gone(b, k)
    &&& (m.works)(ip6_name(prog)) && jumps_to(a, six) <= 8 ==> gone(b, six)
    &&& (!(m.works)(prog) || gone(a, k)) && (!(m.works)(ip6_name(prog)) || gone(a, six)) ==> b == a
    &&& no_more(a, b)
    &&& foreign_kept(a, b)
}

} // verus!
