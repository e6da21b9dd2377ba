//! The bypass engine of Linux: the daemon `nfqws`.
//!
//! Starting it takes two actions in this order: the capture rules come up, then the
//! daemon starts; stopping it takes them in the reverse order. Whatever goes wrong on
//! the way, no rules are left behind.
use vstd::prelude::*;

use super::nft::{down, down_all, up, Backend};
use super::strategy::{capture_ports, resolve_game_filter};
use crate::pick::pick_first;
use crate::platform::EngineCommand;
use crate::script::{chain, run_quietly, Step};
use crate::strategies::Strategy;
use crate::text::{
    cat, cat3, decimal_text, join, join_path, lines, signed_text, strings, strip_prefix, trim,
};

verus! {

use super::nft::{
    down_all_script, down_script, every_queue_rule_bypasses, ipt, label_of, safe, up_script,
};
use super::strategy::{all_filtered, captured, game_filter_is_settled, has_placeholder};
use crate::pick::{first_where, the_first_that_will_do_is_picked};
use crate::platform::EngineCommandView;
use crate::script::{quietly, script, StepView};
use crate::strategies::StrategyView;
use crate::text::{
    after_prefix, begins, below, decimal, is_white, joined, last_n, lines_of, opt_str, opt_text,
    signed, texts, the_last_items_are_the_end, trimmed, trimming_takes_off_the_ends, whites,
};

/// The number of the queue, for the rules and for the engine alike: with two numbers the
/// engine would get no packet.
pub const QNUM: u16 = 200;

// ── The program ─────────────────────────────────────────────────────────────

/// Where the program may be: in the core, then in the usual places.
pub open spec fn candidates(core: Option<Seq<char>>) -> Seq<Seq<char>> {
    let fixed = seq![
        "/usr/local/sbin/nfqws"@,
        "/usr/sbin/nfqws"@,
        "/usr/local/bin/nfqws"@,
        "/usr/bin/nfqws"@,
        "/opt/zapret/nfqws"@,
    ];
    match core {
        Some(c) => seq![below(c, "nfqws"@)] + fixed,
        None => fixed,
    }
}

/// Where the program may be, where `core` is the directory of the core.
pub fn candidate_paths(core: Option<&str>) -> (r: Vec<String>)
    ensures
        texts(r@) == candidates(opt_str(core)),
{
    let mut fixed = strings(
        &[
            "/usr/local/sbin/nfqws",
            "/usr/sbin/nfqws",
            "/usr/local/bin/nfqws",
            "/usr/bin/nfqws",
            "/opt/zapret/nfqws",
        ],
    );
    assert(texts(fixed@) =~= candidates(None));
    let ghost usual = texts(fixed@);
    match core {
        Some(c) => {
            let mut v: Vec<String> = Vec::new();
            v.push(join_path(c, "nfqws"));
            v.append(&mut fixed);
            assert(texts(v@) =~= seq![below(c@, "nfqws"@)] + usual);
            v
        },
        None => fixed,
    }
}

/// The program: the first place where it is, or else what looking it up has printed.
pub open spec fn found_nfqws(
    places: Seq<Seq<char>>,
    present: Seq<bool>,
    lookup: Option<Seq<char>>,
) -> Option<Seq<char>> {
    match first_where(places, present) {
        Some(p) => Some(p),
        None => match lookup {
            Some(out) => if trimmed(out).len() > 0 {
                Some(trimmed(out))
            } else {
                None
            },
            None => None,
        },
    }
}

/// Picks the program: `present` says at which of the places it is, and `lookup` is what
/// `command -v nfqws` has printed where it succeeded.
pub fn find_nfqws(places: &[String], present: &[bool], lookup: Option<&str>) -> (r: Option<String>)
    ensures
        opt_text(r) == found_nfqws(texts(places@), present@, opt_str(lookup)),
{
    match pick_first(places, present) {
        Some(p) => {
            return Some(p);
        },
        None => {},
    }
    match lookup {
        Some(out) => {
            let p = trim(out);
            if p.is_empty() {
                None
            } else {
                Some(p.to_owned())
            }
        },
        None => None,
    }
}

// ── Lists ───────────────────────────────────────────────────────────────────

/// The file that an argument names as a list, if it is such an argument.
pub open spec fn list_file(a: Seq<char>) -> Option<Seq<char>> {
    match after_prefix(a, "--hostlist="@) {
        Some(p) => Some(p),
        None => match after_prefix(a, "--hostlist-exclude="@) {
            Some(p) => Some(p),
            None => match after_prefix(a, "--ipset="@) {
                Some(p) => Some(p),
                None => after_prefix(a, "--ipset-exclude="@),
            },
        },
    }
}

/// The files that the arguments name as lists.
pub open spec fn list_files(args: Seq<Seq<char>>) -> Seq<Seq<char>>
    decreases args.len(),
{
    if args.len() == 0 {
        Seq::empty()
    } else {
        let before = list_files(args.drop_last());
        match list_file(args.last()) {
            Some(p) => before.push(p),
            None => before,
        }
    }
}

fn list_path<'a>(a: &'a str) -> (r: Option<&'a str>)
    ensures
        opt_str(r) == list_file(a@),
{
    match strip_prefix(a, "--hostlist=") {
        Some(p) => Some(p),
        None => match strip_prefix(a, "--hostlist-exclude=") {
            Some(p) => Some(p),
            None => match strip_prefix(a, "--ipset=") {
                Some(p) => Some(p),
                None => strip_prefix(a, "--ipset-exclude="),
            },
        },
    }
}

/// The lists that the engine will open. Those that are missing are to be made empty: an
/// empty list matches nothing, a missing one stops the engine. Payload files are not
/// among them.
pub fn ensure_lists(args: &[String]) -> (r: Vec<String>)
    ensures
        texts(r@) == list_files(texts(args@)),
{
    let ghost all = texts(args@);
    let mut v: Vec<String> = Vec::new();
    let mut i: usize = 0;
    assert(all.take(0) =~= Seq::<Seq<char>>::empty());
    while i < args.len()
        invariant
            i <= args@.len(),
            all == texts(args@),
            texts(v@) == list_files(all.take(i as int)),
        decreases args@.len() - i,
    {
        let ghost before = texts(v@);
        proof {
            assert(all.take(i + 1).drop_last() =~= all.take(i as int));
            assert(all.take(i + 1).last() == args@[i as int]@);
        }
        match list_path(args[i].as_str()) {
            Some(p) => {
                v.push(p.to_owned());
                assert(texts(v@) =~= before.push(p@));
            },
            None => {},
        }
        i += 1;
    }
    assert(all.take(all.len() as int) =~= all);
    v
}

// ── Diagnostics ─────────────────────────────────────────────────────────────

/// What is said where the engine is missing.
pub open spec fn no_engine() -> Seq<char> {
    "nfqws не найден — установите bol-van/zapret (автоустановка в L8)"@
}

/// The readiness of the engine in one line.
pub open spec fn readiness(nfqws: Option<Seq<char>>, fw: Option<Seq<char>>) -> Seq<char> {
    match nfqws {
        Some(p) => "nfqws="@ + p + " · фаервол="@ + (match fw {
            Some(label) => label,
            None => "НЕТ (нет nft/iptables!)"@,
        }) + " · qnum="@ + decimal(QNUM as nat),
        None => no_engine(),
    }
}

/// The label of the firewall, where there is one.
pub open spec fn label_opt(b: Option<Backend>) -> Option<Seq<char>> {
    match b {
        Some(x) => Some(label_of(ipt(x))),
        None => None,
    }
}

/// The readiness of the engine in one line, for the log and the diagnostics.
pub fn diag(nfqws: Option<&str>, backend: Option<Backend>) -> (r: String)
    ensures
        r@ == readiness(opt_str(nfqws), label_opt(backend)),
{
    match nfqws {
        Some(p) => {
            let fw = match backend {
                Some(b) => b.label(),
                None => "НЕТ (нет nft/iptables!)".to_owned(),
            };
            let mut s = cat3("nfqws=", p, " · фаервол=");
            s.append(fw.as_str());
            s.append(" · qnum=");
            s.append(decimal_text(QNUM as u64).as_str());
            s
        },
        None => "nfqws не найден — установите bol-van/zapret (автоустановка в L8)".to_owned(),
    }
}

/// The lines that are not blank.
pub open spec fn nonblank(ls: Seq<Seq<char>>) -> Seq<Seq<char>>
    decreases ls.len(),
{
    if ls.len() == 0 {
        Seq::empty()
    } else if trimmed(ls.last()).len() == 0 {
        nonblank(ls.drop_last())
    } else {
        nonblank(ls.drop_last()).push(ls.last())
    }
}

/// The end of what the engine has printed: its last twelve lines that are not blank.
pub open spec fn output_end(text: Seq<char>) -> Seq<char> {
    joined(last_n(nonblank(lines_of(text)), 12), " | "@)
}

/// The end of what the engine has printed; nothing without an output.
pub fn last_engine_output(text: Option<&str>) -> (r: String)
    ensures
        r@ == (match text {
            Some(t) => output_end(t@),
            None => Seq::empty(),
        }),
{
    match text {
        None => {
            let r = String::new();
            assert(r@ =~= Seq::<char>::empty());
            r
        },
        Some(t) => {
            let all = lines(t);
            let ghost ls = texts(all@);
            let mut kept: Vec<String> = Vec::new();
            let mut i: usize = 0;
            assert(ls.take(0) =~= Seq::<Seq<char>>::empty());
            while i < all.len()
                invariant
                    i <= all@.len(),
                    ls == texts(all@),
                    texts(kept@) == nonblank(ls.take(i as int)),
                decreases all@.len() - i,
            {
                let ghost before = texts(kept@);
                proof {
                    assert(ls.take(i + 1).drop_last() =~= ls.take(i as int));
                    assert(ls.take(i + 1).last() == all@[i as int]@);
                }
                if !trim(all[i].as_str()).is_empty() {
                    kept.push(all[i].clone());
                    assert(texts(kept@) =~= before.push(all@[i as int]@));
                }
                i += 1;
            }
            assert(ls.take(ls.len() as int) =~= ls);
            let ghost full = texts(kept@);
            if kept.len() > 12 {
                let cut: usize = kept.len() - 12;
                let end = kept.split_off(cut);
                assert(texts(end@) =~= full.skip(full.len() - 12));
                join(&end, " | ")
            } else {
                join(&kept, " | ")
            }
        },
    }
}

// ── Starting ────────────────────────────────────────────────────────────────

/// The argument that names the queue.
pub open spec fn qnum_arg() -> Seq<char> {
    "--qnum="@ + decimal(QNUM as nat)
}

fn qnum_text() -> (r: String)
    ensures
        r@ == qnum_arg(),
{
    cat("--qnum=", decimal_text(QNUM as u64).as_str())
}

/// The command of the engine for a strategy.
pub open spec fn engine_call(
    nfqws: Seq<char>,
    parent: Option<Seq<char>>,
    s: StrategyView,
    gf: bool,
) -> EngineCommandView {
    EngineCommandView {
        program: nfqws,
        cwd: match parent {
            Some(d) => d,
            None => "/"@,
        },
        args: seq![qnum_arg()] + all_filtered(s.args, gf),
    }
}

/// The command of the engine for a strategy; nothing where there is no engine. `parent`
/// is the directory of the program.
pub fn engine_command(
    nfqws: Option<&str>,
    parent: Option<&str>,
    strat: &Strategy,
    game_filter: bool,
) -> (r: Option<EngineCommand>)
    ensures
        match nfqws {
            Some(p) => r matches Some(c) && c@ == engine_call(
                p@,
                opt_str(parent),
                strat@,
                game_filter,
            ),
            None => r is None,
        },
{
    match nfqws {
        None => None,
        Some(p) => {
            let cwd = match parent {
                Some(d) => d.to_owned(),
                None => "/".to_owned(),
            };
            let mut args: Vec<String> = Vec::new();
            args.push(qnum_text());
            let mut rest = resolve_game_filter(&strat.args, game_filter);
            let ghost tail = texts(rest@);
            args.append(&mut rest);
            assert(texts(args@) =~= seq![qnum_arg()] + tail);
            Some(EngineCommand { program: p.to_owned(), cwd, args })
        },
    }
}

/// What it takes to bring the engine up.
#[derive(Debug)]
pub struct Launch {
    pub backend: Backend,
    /// Clears what an earlier run may have left: an engine that still reads the queue
    /// would break all traffic.
    pub clean: Vec<Step>,
    /// Brings the rules up.
    pub rules: Vec<Step>,
    /// For the log, once the rules are up.
    pub note: String,
    /// The lists that must exist.
    pub lists: Vec<String>,
    pub program: String,
    pub args: Vec<String>,
    /// Whether the engine prints to the terminal.
    pub inherit: bool,
    /// Takes the rules down where the engine does not start.
    pub rollback: Vec<Step>,
}

/// What it takes to bring the engine up, as a mathematical value.
#[verifier::ext_equal]
pub struct LaunchView {
    pub backend: Option<Seq<char>>,
    pub clean: Seq<StepView>,
    pub rules: Seq<StepView>,
    pub note: Seq<char>,
    pub lists: Seq<Seq<char>>,
    pub program: Seq<char>,
    pub args: Seq<Seq<char>>,
    pub inherit: bool,
    pub rollback: Seq<StepView>,
}

impl View for Launch {
    type V = LaunchView;

    open spec fn view(&self) -> LaunchView {
        LaunchView {
            backend: ipt(self.backend),
            clean: script(self.clean@),
            rules: script(self.rules@),
            note: self.note@,
            lists: texts(self.lists@),
            program: self.program@,
            args: texts(self.args@),
            inherit: self.inherit,
            rollback: script(self.rollback@),
        }
    }
}

/// Stops every engine and takes all rules down.
pub open spec fn force_down_script() -> Seq<StepView> {
    seq![quietly("pkill"@, seq!["-x"@, "nfqws"@])] + down_all_script()
}

/// The script that stops every engine and takes all rules down.
pub fn force_down() -> (r: Vec<Step>)
    ensures
        script(r@) == force_down_script(),
{
    let args = strings(&["-x", "nfqws"]);
    assert(texts(args@) =~= seq!["-x"@, "nfqws"@]);
    let mut v: Vec<Step> = Vec::new();
    v.push(run_quietly("pkill", args));
    assert(script(v@) =~= seq![quietly("pkill"@, seq!["-x"@, "nfqws"@])]);
    chain(v, down_all())
}

/// The argument that names the user to whom the engine drops its rights: whoever called,
/// who owns the files of the core.
pub open spec fn uid_args(ids: Option<(u32, u32)>) -> Seq<Seq<char>> {
    match ids {
        Some(p) => seq!["--uid="@ + decimal(p.0 as nat) + ":"@ + decimal(p.1 as nat)],
        None => Seq::empty(),
    }
}

/// The log line on the rules.
pub open spec fn rules_note(
    b: Option<Seq<char>>,
    tcp: Seq<Seq<char>>,
    udp: Seq<Seq<char>>,
) -> Seq<char> {
    "правила перехвата подняты ("@ + label_of(b) + "), qnum="@ + decimal(QNUM as nat) + ", tcp=["@
        + joined(tcp, ","@) + "] udp=["@ + joined(udp, ","@) + "]"@
}

/// What it takes to bring the engine up.
pub open spec fn launch_of(
    nfqws: Seq<char>,
    b: Option<Seq<char>>,
    s: StrategyView,
    gf: bool,
    ids: Option<(u32, u32)>,
    inherit: bool,
) -> LaunchView {
    let ports = captured(s, gf);
    LaunchView {
        backend: b,
        clean: force_down_script(),
        rules: up_script(b, decimal(QNUM as nat), ports.0, ports.1),
        note: rules_note(b, ports.0, ports.1),
        lists: list_files(all_filtered(s.args, gf)),
        program: nfqws,
        args: seq![qnum_arg()] + uid_args(ids) + all_filtered(s.args, gf),
        inherit,
        rollback: down_script(b),
    }
}

fn note_text(backend: Backend, tcp: &[String], udp: &[String]) -> (r: String)
    ensures
        r@ == rules_note(ipt(backend), texts(tcp@), texts(udp@)),
{
    let mut s = cat3("правила перехвата подняты (", backend.label().as_str(), "), qnum=");
    s.append(decimal_text(QNUM as u64).as_str());
    s.append(", tcp=[");
    s.append(join(tcp, ",").as_str());
    s.append("] udp=[");
    s.append(join(udp, ",").as_str());
    s.append("]");
    s
}

/// What it takes to bring the engine up for a strategy, or why it cannot be: `nfqws` is
/// the program, `backend` the firewall, `ids` the user and group of whoever called.
pub fn bring_up(
    nfqws: Option<&str>,
    backend: Option<Backend>,
    strat: &Strategy,
    game_filter: bool,
    ids: Option<(u32, u32)>,
    inherit: bool,
) -> (r: Result<Launch, String>)
    ensures
        nfqws is None ==> (r matches Err(e) && e@ == no_engine()),
        nfqws is Some && backend is None ==> (r matches Err(e) && e@
            == "не найден nft/iptables для правил перехвата"@),
        nfqws is Some && backend is Some ==> (r matches Ok(l) && l@ == launch_of(
            nfqws->0@,
            ipt(backend->0),
            strat@,
            game_filter,
            ids,
            inherit,
        )),
{
    match nfqws {
        None => Err(
            "nfqws не найден — установите bol-van/zapret (автоустановка в L8)".to_owned(),
        ),
        Some(program) => match backend {
            None => Err("не найден nft/iptables для правил перехвата".to_owned()),
            Some(b) => {
                let (tcp, udp) = capture_ports(strat, game_filter);
                let mut resolved = resolve_game_filter(&strat.args, game_filter);
                let lists = ensure_lists(&resolved);
                let ghost rest = texts(resolved@);
                let mut args: Vec<String> = Vec::new();
                args.push(qnum_text());
                match ids {
                    Some(p) => {
                        let mut u = cat3(
                            "--uid=",
                            decimal_text(p.0 as u64).as_str(),
                            ":",
                        );
                        u.append(decimal_text(p.1 as u64).as_str());
                        args.push(u);
                    },
                    None => {},
                }
                assert(texts(args@) =~= seq![qnum_arg()] + uid_args(ids));
                let ghost first = texts(args@);
                args.append(&mut resolved);
                assert(texts(args@) =~= first + rest);
                Ok(
                    Launch {
                        backend: b,
                        clean: force_down(),
                        rules: up(b, QNUM, &tcp, &udp),
                        note: note_text(b, &tcp, &udp),
                        lists,
                        program: program.to_owned(),
                        args,
                        inherit,
                        rollback: down(b),
                    },
                )
            },
        },
    }
}

/// The engine reads the queue into which the rules lead: its first argument names the
/// queue of every rule, and every rule lets packets pass by while no engine reads it.
pub proof fn engine_reads_the_queue_of_the_rules(
    nfqws: Seq<char>,
    b: Option<Seq<char>>,
    s: StrategyView,
    gf: bool,
    ids: Option<(u32, u32)>,
    inherit: bool,
)
    ensures
        launch_of(nfqws, b, s, gf, ids, inherit).args[0] == "--qnum="@ + decimal(QNUM as nat),
        safe(launch_of(nfqws, b, s, gf, ids, inherit).rules, decimal(QNUM as nat)),
        launch_of(nfqws, b, s, gf, ids, inherit).rollback == down_script(b),
{
    let ports = captured(s, gf);
    every_queue_rule_bypasses(b, decimal(QNUM as nat), ports.0, ports.1);
}

/// What it takes to bring the engine up for one probe of the auto-selection.
pub fn spawn_probe(
    nfqws: Option<&str>,
    backend: Option<Backend>,
    strat: &Strategy,
    game_filter: bool,
    ids: Option<(u32, u32)>,
) -> (r: Result<Launch, String>)
    ensures
        nfqws is None ==> (r matches Err(e) && e@ == no_engine()),
        nfqws is Some && backend is None ==> (r matches Err(e) && e@
            == "не найден nft/iptables для правил перехвата"@),
        nfqws is Some && backend is Some ==> (r matches Ok(l) && l@ == launch_of(
            nfqws->0@,
            ipt(backend->0),
            strat@,
            game_filter,
            ids,
            false,
        )),
{
    bring_up(nfqws, backend, strat, game_filter, ids, false)
}

/// How far the start of the engine has come.
#[derive(Clone, Copy, Debug, PartialEq, Eq, Structural)]
pub enum Stage {
    /// Clear what an earlier run may have left.
    Clean,
    /// Bring the rules up.
    Rules,
    /// Start the engine.
    Spawn,
    /// Take the rules down again.
    Rollback,
    /// The engine is up, and so are the rules.
    Up,
    /// The engine is not up.
    Down,
}

/// What comes after a stage that succeeded (`ok`) or failed.
pub open spec fn stage_after(s: Stage, ok: bool) -> Stage {
    match s {
        Stage::Clean => Stage::Rules,
        Stage::Rules => if ok {
            Stage::Spawn
        } else {
            Stage::Down
        },
        Stage::Spawn => if ok {
            Stage::Up
        } else {
            Stage::Rollback
        },
        Stage::Rollback => Stage::Down,
        Stage::Up => Stage::Up,
        Stage::Down => Stage::Down,
    }
}

/// What comes after a stage that succeeded (`ok`) or failed.
pub fn next_stage(s: Stage, ok: bool) -> (r: Stage)
    ensures
        r == stage_after(s, ok),
{
    match s {
        Stage::Clean => Stage::Rules,
        Stage::Rules => if ok {
            Stage::Spawn
        } else {
            Stage::Down
        },
        Stage::Spawn => if ok {
            Stage::Up
        } else {
            Stage::Rollback
        },
        Stage::Rollback => Stage::Down,
        Stage::Up => Stage::Up,
        Stage::Down => Stage::Down,
    }
}

/// The stage after some stages with these outcomes.
pub open spec fn stage_of(outcomes: Seq<bool>) -> Stage
    decreases outcomes.len(),
{
    if outcomes.len() == 0 {
        Stage::Clean
    } else {
        stage_after(stage_of(outcomes.drop_last()), outcomes.last())
    }
}

/// The engine is up exactly when, after the clearing, first the rules came up and then
/// the engine started. Where the rules came up and the engine did not start, the rules
/// are taken down before the start is given up.
pub proof fn engine_is_up_only_behind_rules(outcomes: Seq<bool>)
    ensures
        stage_of(outcomes) is Up <==> outcomes.len() >= 3 && outcomes[1] && outcomes[2],
        stage_of(outcomes) is Rollback <==> outcomes.len() == 3 && outcomes[1] && !outcomes[2],
        outcomes.len() >= 4 ==> stage_of(outcomes) is Up || stage_of(outcomes) is Down,
    decreases outcomes.len(),
{
    reveal_with_fuel(stage_of, 4);
    if outcomes.len() > 0 {
        engine_is_up_only_behind_rules(outcomes.drop_last());
    }
    if outcomes.len() == 3 {
        assert(outcomes.drop_last().drop_last().drop_last().len() == 0);
        assert(outcomes.drop_last().last() == outcomes[1]);
    }
    if outcomes.len() == 2 {
        assert(outcomes.drop_last().drop_last().len() == 0);
    }
}

/// The error of rules that did not come up.
pub fn rules_error(e: &str) -> (r: String)
    ensures
        r@ == "правила перехвата: "@ + e@,
{
    cat("правила перехвата: ", e)
}

/// The error of an engine that did not start.
pub fn spawn_error(e: &str) -> (r: String)
    ensures
        r@ == "nfqws не запустился: "@ + e@ + " (правила сняты)"@,
{
    cat3("nfqws не запустился: ", e, " (правила сняты)")
}

// ── Stopping ────────────────────────────────────────────────────────────────

/// What is left to do once the engine is stopped and taking its rules down has succeeded
/// (`ok`) or failed: after a failure everything goes that any firewall may hold.
pub fn shutdown(ok: bool) -> (r: Vec<Step>)
    ensures
        script(r@) == (if ok {
            Seq::empty()
        } else {
            down_all_script()
        }),
{
    if ok {
        let v: Vec<Step> = Vec::new();
        assert(script(v@) =~= Seq::<StepView>::empty());
        v
    } else {
        down_all()
    }
}

/// What a running engine is to do.
#[derive(Clone, Copy, Debug, PartialEq, Eq, Structural)]
pub enum Tick {
    /// Go on.
    Wait,
    /// Stop: a signal has come.
    Stop,
    /// It has ended by itself, with this code.
    Ended(i32),
}

/// Looks after a running engine: a stop signal counts first, then its own end.
pub fn watch(stop: bool, exit: Option<i32>) -> (r: Tick)
    ensures
        r == (if stop {
            Tick::Stop
        } else {
            match exit {
                Some(c) => Tick::Ended(c),
                None => Tick::Wait,
            }
        }),
{
    if stop {
        Tick::Stop
    } else {
        match exit {
            Some(c) => Tick::Ended(c),
            None => Tick::Wait,
        }
    }
}

/// What the service returns when the engine has ended by itself.
pub fn service_result(code: i32) -> (r: Result<(), String>)
    ensures
        code == 0 ==> r is Ok,
        code != 0 ==> (r matches Err(e) && e@ == "nfqws завершился с кодом "@ + signed(code as int)
            + "; правила сняты"@),
{
    if code == 0 {
        Ok(())
    } else {
        Err(cat3("nfqws завершился с кодом ", signed_text(code).as_str(), "; правила сняты"))
    }
}

/// What is said when the engine of a foreground run has ended by itself.
pub fn foreground_end(code: i32) -> (r: String)
    ensures
        r@ == "nfqws неожиданно завершился (код "@ + signed(code as int)
            + "). Снимаю правила…"@,
{
    cat3("nfqws неожиданно завершился (код ", signed_text(code).as_str(), "). Снимаю правила…")
}

// ── What holds of every start ───────────────────────────────────────────────

/// The engine is taken from the first place that has it, of which the core is the first; only
/// where no place has it is it taken from where the shell finds it, and a blank answer is
/// none.
pub proof fn the_engine_of_the_core_goes_first(
    core: Seq<char>,
    present: Seq<bool>,
    k: int,
    out: Seq<char>,
    lookup: Option<Seq<char>>,
)
    requires
        present.len() == 6,
        out.len() > 0 ==> !is_white(out[0]) && !is_white(out.last()),
    ensures
        ({
            let places = candidates(Some(core));
            &&& places.len() == 6 && candidates(None) == places.skip(1)
            &&& core.len() > 0 && core.last() != '/' ==> places[0] == core + "/nfqws"@
            &&& 0 <= k < 6 && present[k] && (forall|j: int| 0 <= j < k ==> !#[trigger] present[j])
                ==> found_nfqws(places, present, lookup) == Some(places[k])
            &&& (forall|j: int| 0 <= j < 6 ==> !#[trigger] present[j]) ==> {
                &&& found_nfqws(places, present, None) is None
                &&& found_nfqws(places, present, Some(out + seq!['\n'])) == (if out.len() > 0 {
                    Some(out)
                } else {
                    None
                })
            }
        }),
{
    let places = candidates(Some(core));
    assert(candidates(None) =~= places.skip(1));
    the_first_that_will_do_is_picked(places, present, k);
    let none = Seq::<char>::empty();
    let end = seq!['\n'];
    assert forall|i: int| 0 <= i < end.len() implies is_white(#[trigger] end[i]) by {}
    trimming_takes_off_the_ends(none, out, end, whites());
    assert(none + out + end =~= out + end);
    reveal_strlit("/nfqws");
    reveal_strlit("/");
    reveal_strlit("nfqws");
    assert(core + "/"@ + "nfqws"@ =~= core + "/nfqws"@);
}

/// The lists that must exist are exactly the files that the arguments name as lists of hosts
/// or addresses, to match or to leave out, in their order; no other argument names one, so
/// payload files are not made.
pub proof fn every_named_list_must_exist(
    a: Seq<Seq<char>>,
    b: Seq<Seq<char>>,
    p: Seq<char>,
    other: Seq<char>,
)
    ensures
        list_files(a + b) == list_files(a) + list_files(b),
        list_files(seq!["--hostlist="@ + p]) == seq![p],
        list_files(seq!["--hostlist-exclude="@ + p]) == seq![p],
        list_files(seq!["--ipset="@ + p]) == seq![p],
        list_files(seq!["--ipset-exclude="@ + p]) == seq![p],
        !begins(other, "--hostlist"@) && !begins(other, "--ipset"@) ==> list_files(seq![other])
            == Seq::<Seq<char>>::empty(),
    decreases b.len(),
{
    if b.len() == 0 {
        assert(a + b =~= a);
        assert(list_files(a) + list_files(b) =~= list_files(a));
    } else {
        every_named_list_must_exist(a, b.drop_last(), p, other);
        assert((a + b).drop_last() =~= a + b.drop_last());
        assert((a + b).last() == b.last());
        assert(list_files(a + b) =~= list_files(a) + list_files(b));
    }
    reveal_strlit("--hostlist=");
    reveal_strlit("--hostlist-exclude=");
    reveal_strlit("--ipset=");
    reveal_strlit("--ipset-exclude=");
    reveal_strlit("--hostlist");
    reveal_strlit("--ipset");
    let h = "--hostlist="@ + p;
    let x = "--hostlist-exclude="@ + p;
    let i = "--ipset="@ + p;
    let y = "--ipset-exclude="@ + p;
    assert(h.take(11) =~= "--hostlist="@ && h.skip(11) =~= p);
    assert(x.take(19) =~= "--hostlist-exclude="@ && x.skip(19) =~= p);
    assert(i.take(8) =~= "--ipset="@ && i.skip(8) =~= p);
    assert(y.take(16) =~= "--ipset-exclude="@ && y.skip(16) =~= p);
    assert(x[10] == '-' && i[2] == 'i' && y[2] == 'i' && y[7] == '-');
    if begins(x, "--hostlist="@) {
        assert(x.take(11)[10] == x[10]);
    }
    if begins(i, "--hostlist="@) {
        assert(i.take(11)[2] == i[2]);
    }
    if begins(i, "--hostlist-exclude="@) {
        assert(i.take(19)[2] == i[2]);
    }
    if begins(y, "--hostlist="@) {
        assert(y.take(11)[2] == y[2]);
    }
    if begins(y, "--hostlist-exclude="@) {
        assert(y.take(19)[2] == y[2]);
    }
    if begins(y, "--ipset="@) {
        assert(y.take(8)[7] == y[7]);
    }
    if begins(other, "--hostlist="@) {
        assert(other.take(10) =~= other.take(11).take(10));
        assert("--hostlist="@.take(10) =~= "--hostlist"@);
    }
    if begins(other, "--hostlist-exclude="@) {
        assert(other.take(10) =~= other.take(19).take(10));
        assert("--hostlist-exclude="@.take(10) =~= "--hostlist"@);
    }
    if begins(other, "--ipset="@) {
        assert(other.take(7) =~= other.take(8).take(7));
        assert("--ipset="@.take(7) =~= "--ipset"@);
    }
    if begins(other, "--ipset-exclude="@) {
        assert(other.take(7) =~= other.take(16).take(7));
        assert("--ipset-exclude="@.take(7) =~= "--ipset"@);
    }
    lemma_one_argument(h);
    lemma_one_argument(x);
    lemma_one_argument(i);
    lemma_one_argument(y);
    lemma_one_argument(other);
}

proof fn lemma_one_argument(a: Seq<char>)
    ensures
        list_files(seq![a]) == (match list_file(a) {
            Some(p) => seq![p],
            None => Seq::empty(),
        }),
{
    reveal_with_fuel(list_files, 2);
    assert(seq![a].drop_last() =~= Seq::empty());
    match list_file(a) {
        Some(p) => {
            assert(Seq::<Seq<char>>::empty().push(p) =~= seq![p]);
        },
        None => {},
    }
}

/// The engine gets the queue, the user to whom it drops its rights, where there is one, and
/// then every argument of the strategy in its order: unchanged where it has no place for the
/// game filter. The rules are brought up for the ports of the same strategy, and before that
/// every engine that still runs is stopped.
pub proof fn the_engine_gets_the_whole_strategy(
    nfqws: Seq<char>,
    b: Option<Seq<char>>,
    s: StrategyView,
    gf: bool,
    uid: u32,
    gid: u32,
    inherit: bool,
    i: int,
)
    requires
        0 <= i < s.args.len(),
    ensures
        ({
            let l = launch_of(nfqws, b, s, gf, Some((uid, gid)), inherit);
            let k = launch_of(nfqws, b, s, gf, None, inherit);
            let c = engine_call(nfqws, None, s, gf);
            &&& l.program == nfqws && k.program == nfqws && c.program == nfqws
            &&& l.args.len() == s.args.len() + 2 && k.args.len() == s.args.len() + 1
            &&& l.args[0] == "--qnum="@ + decimal(200) && k.args[0] == l.args[0]
            &&& l.args[1] == "--uid="@ + decimal(uid as nat) + ":"@ + decimal(gid as nat)
            &&& c.args == k.args && k.args.skip(1) == l.args.skip(2)
            &&& !has_placeholder(s.args[i]) ==> k.args[i + 1] == s.args[i]
            &&& l.rules == up_script(b, decimal(200), captured(s, gf).0, captured(s, gf).1)
            &&& l.rollback == down_script(b)
            &&& l.clean.len() > 0 && l.clean[0].command.program == "pkill"@
            &&& l.clean[0].command.args == seq!["-x"@, "nfqws"@]
            &&& l.clean.skip(1) == down_all_script()
        }),
{
    let l = launch_of(nfqws, b, s, gf, Some((uid, gid)), inherit);
    let k = launch_of(nfqws, b, s, gf, None, inherit);
    let c = engine_call(nfqws, None, s, gf);
    assert(c.args =~= k.args);
    assert(k.args.skip(1) =~= all_filtered(s.args, gf));
    assert(l.args.skip(2) =~= all_filtered(s.args, gf));
    game_filter_is_settled(s.args[i], gf, gf);
    assert(k.args[i + 1] == all_filtered(s.args, gf)[i]);
    assert(l.clean.skip(1) =~= down_all_script());
}

/// What is shown of the output of the engine are its last lines that are not blank, at most
/// twelve of them and in their order: all of them where there are no more, and otherwise
/// nothing of what stands before the last twelve.
pub proof fn the_end_of_the_output_is_shown(a: Seq<Seq<char>>, b: Seq<Seq<char>>)
    ensures
        nonblank(a + b) == nonblank(a) + nonblank(b),
        a.len() == 1 ==> nonblank(a) == (if trimmed(a[0]).len() > 0 {
            a
        } else {
            Seq::empty()
        }),
        nonblank(a).len() <= 12 ==> last_n(nonblank(a), 12) == nonblank(a),
        nonblank(b).len() == 12 ==> last_n(nonblank(a + b), 12) == nonblank(b),
    decreases b.len(),
{
    reveal_with_fuel(nonblank, 2);
    if b.len() == 0 {
        assert(a + b =~= a);
        assert(nonblank(a) + nonblank(b) =~= nonblank(a));
    } else {
        the_end_of_the_output_is_shown(a, b.drop_last());
        assert((a + b).drop_last() =~= a + b.drop_last());
        assert((a + b).last() == b.last());
        assert(nonblank(a + b) =~= nonblank(a) + nonblank(b));
    }
    if a.len() == 1 {
        assert(a.drop_last() =~= Seq::empty());
        assert(Seq::<Seq<char>>::empty().push(a[0]) =~= a);
    }
    the_last_items_are_the_end(nonblank(a), nonblank(b), 12);
}

/// The output of the engine is shown by its end: with more than twelve lines that hold
/// something the last twelve are shown, and otherwise all of them, with bars between them.
pub proof fn twelve_lines_are_shown(text: Seq<char>, a: Seq<Seq<char>>, b: Seq<Seq<char>>)
    requires
        nonblank(lines_of(text)) == a + b,
        b.len() == 12 || (a.len() == 0 && b.len() < 12),
    ensures
        output_end(text) == joined(b, " | "@),
{
    the_last_items_are_the_end(a, b, 12);
    assert(a.len() == 0 ==> a + b =~= b);
}

} // verus!
