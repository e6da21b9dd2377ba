//! The command line: what the program is to do, and with which arguments.
use vstd::prelude::*;

use crate::strategies::{find_named, Strategy};
use crate::text::{cat, copy_strings, same, starts_with, strings};

verus! {

use crate::operation::{expectation_of, switch_word};
use crate::platform::linux::service::{
    env_line, quoted, unit_text, STRATEGY_MARKER, UNIT_END, UNIT_HEAD, UNIT_MIDDLE,
};
use crate::state::{known_good, selection_args, AppView};
use crate::strategies::{index_named, views};
use crate::text::{at, begins, contains, opt_text, texts};

/// What the program is to do.
#[derive(Debug)]
pub enum Mode {
    /// Print the command of the engine for a strategy.
    DumpArgs(Option<String>),
    /// Run the engine with a strategy for a few seconds and print its output.
    TestRun(Option<String>),
    /// Test the targets.
    TestNet,
    /// Print the diagnostics.
    Diag,
    /// Write the desktop entry and the icons.
    InstallDesktop,
    /// Try an update in a temporary directory.
    UpdateDry,
    /// Get the core, into a directory where one is named.
    FetchCore(Option<String>),
    /// Run the engine with a strategy until it is stopped.
    EngineUp(Option<String>),
    /// Stop every engine and take all rules down.
    EngineDown,
    /// Be the body of the service: the strategy, and whether the game filter is on.
    SvcRun(Option<String>, bool),
    /// Try the elevation.
    TestElevate(Vec<String>),
    /// Change the service.
    Svc(Vec<String>),
    /// Replace the core.
    ApplyUpdate(Vec<String>),
    /// Select a strategy.
    Autoselect(Vec<String>),
    /// Write a list.
    WriteList(Vec<String>),
    /// Show the window.
    Gui,
}

/// What the program is to do, as a mathematical value.
pub enum ModeView {
    DumpArgs(Option<Seq<char>>),
    TestRun(Option<Seq<char>>),
    TestNet,
    Diag,
    InstallDesktop,
    UpdateDry,
    FetchCore(Option<Seq<char>>),
    EngineUp(Option<Seq<char>>),
    EngineDown,
    SvcRun(Option<Seq<char>>, bool),
    TestElevate(Seq<Seq<char>>),
    Svc(Seq<Seq<char>>),
    ApplyUpdate(Seq<Seq<char>>),
    Autoselect(Seq<Seq<char>>),
    WriteList(Seq<Seq<char>>),
    Gui,
}

impl View for Mode {
    type V = ModeView;

    open spec fn view(&self) -> ModeView {
        match self {
            Mode::DumpArgs(n) => ModeView::DumpArgs(opt_text(*n)),
            Mode::TestRun(n) => ModeView::TestRun(opt_text(*n)),
            Mode::TestNet => ModeView::TestNet,
            Mode::Diag => ModeView::Diag,
            Mode::InstallDesktop => ModeView::InstallDesktop,
            Mode::UpdateDry => ModeView::UpdateDry,
            Mode::FetchCore(d) => ModeView::FetchCore(opt_text(*d)),
            Mode::EngineUp(n) => ModeView::EngineUp(opt_text(*n)),
            Mode::EngineDown => ModeView::EngineDown,
            Mode::SvcRun(n, g) => ModeView::SvcRun(opt_text(*n), *g),
            Mode::TestElevate(a) => ModeView::TestElevate(texts(a@)),
            Mode::Svc(a) => ModeView::Svc(texts(a@)),
            Mode::ApplyUpdate(a) => ModeView::ApplyUpdate(texts(a@)),
            Mode::Autoselect(a) => ModeView::Autoselect(texts(a@)),
            Mode::WriteList(a) => ModeView::WriteList(texts(a@)),
            Mode::Gui => ModeView::Gui,
        }
    }
}

/// An argument by its position.
pub open spec fn arg(args: Seq<Seq<char>>, i: int) -> Option<Seq<char>> {
    if i < args.len() {
        Some(args[i])
    } else {
        None
    }
}

/// The arguments from a position on.
pub open spec fn args_from(args: Seq<Seq<char>>, i: int) -> Seq<Seq<char>> {
    if i <= args.len() {
        args.skip(i)
    } else {
        Seq::empty()
    }
}

/// What the program is to do: its first argument says so, which stands behind the name of
/// the program. With any other first argument, and without one, it shows the window. The
/// game filter of the service is on only with `1`.
pub open spec fn mode_of(args: Seq<Seq<char>>) -> ModeView {
    if args.len() < 2 {
        ModeView::Gui
    } else {
        let a = args[1];
        if a == "--dump-args"@ {
            ModeView::DumpArgs(arg(args, 2))
        } else if a == "--test-run"@ {
            ModeView::TestRun(arg(args, 2))
        } else if a == "--test-net"@ {
            ModeView::TestNet
        } else if a == "--diag"@ {
            ModeView::Diag
        } else if a == "--install-desktop"@ {
            ModeView::InstallDesktop
        } else if a == "--update-dry"@ {
            ModeView::UpdateDry
        } else if a == "--fetch-core"@ {
            ModeView::FetchCore(arg(args, 2))
        } else if a == "--engine-up"@ {
            ModeView::EngineUp(arg(args, 2))
        } else if a == "--engine-down"@ {
            ModeView::EngineDown
        } else if a == "--svc-run"@ {
            ModeView::SvcRun(arg(args, 2), arg(args, 3) == Some("1"@))
        } else if a == "--test-elevate"@ {
            ModeView::TestElevate(args_from(args, 2))
        } else if a == "--svc"@ {
            ModeView::Svc(args_from(args, 2))
        } else if a == "--apply-update"@ {
            ModeView::ApplyUpdate(args_from(args, 2))
        } else if a == "--autoselect"@ {
            ModeView::Autoselect(args_from(args, 2))
        } else if a == "--write-list"@ {
            ModeView::WriteList(args_from(args, 2))
        } else {
            ModeView::Gui
        }
    }
}

fn arg_at(args: &[String], i: usize) -> (r: Option<String>)
    ensures
        opt_text(r) == arg(texts(args@), i as int),
{
    if i < args.len() {
        Some(args[i].clone())
    } else {
        None
    }
}

fn rest_from(args: &[String], i: usize) -> (r: Vec<String>)
    ensures
        texts(r@) == args_from(texts(args@), i as int),
{
    let mut all = copy_strings(args);
    assert(texts(all@).len() == all@.len());
    if i <= all.len() {
        let ghost full = texts(all@);
        let rest = all.split_off(i);
        assert(texts(rest@) =~= full.skip(i as int));
        rest
    } else {
        let v: Vec<String> = Vec::new();
        assert(texts(v@) =~= Seq::<Seq<char>>::empty());
        v
    }
}

/// What the program is to do. The first of `args` is the name of the program.
pub fn parse_mode(args: &[String]) -> (r: Mode)
    ensures
        r@ == mode_of(texts(args@)),
{
    if args.len() < 2 {
        return Mode::Gui;
    }
    let a = args[1].as_str();
    assert(texts(args@)[1] == a@);
    if same(a, "--dump-args") {
        Mode::DumpArgs(arg_at(args, 2))
    } else if same(a, "--test-run") {
        Mode::TestRun(arg_at(args, 2))
    } else if same(a, "--test-net") {
        Mode::TestNet
    } else if same(a, "--diag") {
        Mode::Diag
    } else if same(a, "--install-desktop") {
        Mode::InstallDesktop
    } else if same(a, "--update-dry") {
        Mode::UpdateDry
    } else if same(a, "--fetch-core") {
        Mode::FetchCore(arg_at(args, 2))
    } else if same(a, "--engine-up") {
        Mode::EngineUp(arg_at(args, 2))
    } else if same(a, "--engine-down") {
        Mode::EngineDown
    } else if same(a, "--svc-run") {
        Mode::SvcRun(arg_at(args, 2), args.len() > 3 && same(args[3].as_str(), "1"))
    } else if same(a, "--test-elevate") {
        Mode::TestElevate(rest_from(args, 2))
    } else if same(a, "--svc") {
        Mode::Svc(rest_from(args, 2))
    } else if same(a, "--apply-update") {
        Mode::ApplyUpdate(rest_from(args, 2))
    } else if same(a, "--autoselect") {
        Mode::Autoselect(rest_from(args, 2))
    } else if same(a, "--write-list") {
        Mode::WriteList(rest_from(args, 2))
    } else {
        Mode::Gui
    }
}

/// The role of the process in the log.
pub open spec fn role_of(args: Seq<Seq<char>>) -> Seq<char> {
    if args.len() < 2 {
        "gui"@
    } else if args[1] == "--svc"@ || args[1] == "--svc-run"@ || args[1] == "--write-list"@ {
        "svc"@
    } else if args[1] == "--autoselect"@ {
        "autoselect"@
    } else if args[1] == "--apply-update"@ {
        "update"@
    } else if begins(args[1], "--"@) {
        "diag"@
    } else {
        "gui"@
    }
}

/// The role of the process in the log.
pub fn role(args: &[String]) -> (r: &'static str)
    ensures
        r@ == role_of(texts(args@)),
{
    if args.len() < 2 {
        return "gui";
    }
    let a = args[1].as_str();
    assert(texts(args@)[1] == a@);
    if same(a, "--svc") || same(a, "--svc-run") || same(a, "--write-list") {
        "svc"
    } else if same(a, "--autoselect") {
        "autoselect"
    } else if same(a, "--apply-update") {
        "update"
    } else if starts_with(a, "--") {
        "diag"
    } else {
        "gui"
    }
}

// ── Arguments of single modes ───────────────────────────────────────────────

/// A change of the service.
#[derive(Debug)]
pub enum SvcAction {
    /// Install it with a strategy, with or without the game filter.
    Install(String, bool),
    Remove,
    Start,
    Stop,
    Uninstall,
    /// There is no such change; the error says so.
    Unknown(String),
}

/// A change of the service as a mathematical value.
pub enum SvcView {
    Install(Seq<char>, bool),
    Remove,
    Start,
    Stop,
    Uninstall,
    Unknown(Seq<char>),
}

impl View for SvcAction {
    type V = SvcView;

    open spec fn view(&self) -> SvcView {
        match self {
            SvcAction::Install(n, g) => SvcView::Install(n@, *g),
            SvcAction::Remove => SvcView::Remove,
            SvcAction::Start => SvcView::Start,
            SvcAction::Stop => SvcView::Stop,
            SvcAction::Uninstall => SvcView::Uninstall,
            SvcAction::Unknown(e) => SvcView::Unknown(e@),
        }
    }
}

/// The change of the service that arguments ask for. What is missing counts as empty, and
/// the game filter is on only with `1`.
pub open spec fn svc_of(args: Seq<Seq<char>>) -> SvcView {
    let a = if args.len() > 0 {
        args[0]
    } else {
        ""@
    };
    if a == "install"@ {
        SvcView::Install(
            if args.len() > 1 {
                args[1]
            } else {
                ""@
            },
            arg(args, 2) == Some("1"@),
        )
    } else if a == "remove"@ {
        SvcView::Remove
    } else if a == "start"@ {
        SvcView::Start
    } else if a == "stop"@ {
        SvcView::Stop
    } else if a == "uninstall"@ {
        SvcView::Uninstall
    } else {
        SvcView::Unknown("неизвестная операция службы: "@ + a)
    }
}

/// The change of the service that arguments ask for.
pub fn run_service_command(args: &[String]) -> (r: SvcAction)
    ensures
        r@ == svc_of(texts(args@)),
{
    assert(texts(args@).len() == args@.len());
    let a = if args.len() > 0 {
        args[0].as_str()
    } else {
        ""
    };
    if same(a, "install") {
        let name = if args.len() > 1 {
            args[1].clone()
        } else {
            "".to_owned()
        };
        let gf = args.len() > 2 && same(args[2].as_str(), "1");
        SvcAction::Install(name, gf)
    } else if same(a, "remove") {
        SvcAction::Remove
    } else if same(a, "start") {
        SvcAction::Start
    } else if same(a, "stop") {
        SvcAction::Stop
    } else if same(a, "uninstall") {
        SvcAction::Uninstall
    } else {
        SvcAction::Unknown(cat("неизвестная операция службы: ", a))
    }
}

/// The two files of a list that is to be written: where it goes, and where it is.
pub fn write_list_command(args: &[String]) -> (r: Result<(String, String), String>)
    ensures
        args@.len() >= 2 ==> (r matches Ok(p) && p.0@ == args@[0]@ && p.1@ == args@[1]@),
        args@.len() < 2 ==> (r matches Err(e) && e@ == "--write-list: нужны dest и src"@),
{
    if args.len() >= 2 {
        Ok((args[0].clone(), args[1].clone()))
    } else {
        Err("--write-list: нужны dest и src".to_owned())
    }
}

/// The strategy that is asked for: by its name, or the first one where no name is given.
/// Where there is none, the error says what is missing.
pub fn chosen_strategy(list: &[Strategy], name: Option<&str>) -> (r: Result<usize, String>)
    ensures
        match name {
            Some(n) => match index_named(views(list@), n@) {
                Some(i) => r == Ok::<usize, String>(i as usize) && i < list@.len(),
                None => r matches Err(e) && e@ == "стратегия не найдена: "@ + n@,
            },
            None => if list@.len() > 0 {
                r == Ok::<usize, String>(0)
            } else {
                r matches Err(e) && e@ == "стратегий нет"@
            },
        },
{
    match name {
        Some(n) => match find_named(list, n) {
            Some(i) => Ok(i),
            None => Err(cat("стратегия не найдена: ", n)),
        },
        None => if list.len() > 0 {
            Ok(0)
        } else {
            Err("стратегий нет".to_owned())
        },
    }
}

/// The strategy that a diagnostic run asks for: by its name, or `general`. Where there is
/// none, the error says so.
pub fn dumped_strategy(list: &[Strategy], name: Option<&str>) -> (r: Result<usize, String>)
    ensures
        ({
            let n = match name {
                Some(n) => n@,
                None => "general"@,
            };
            match index_named(views(list@), n) {
                Some(i) => r == Ok::<usize, String>(i as usize) && i < list@.len(),
                None => r matches Err(e) && e@ == "стратегия не найдена: "@ + n,
            }
        }),
{
    let n = match name {
        Some(n) => n,
        None => "general",
    };
    chosen_strategy(list, Some(n))
}

/// What a trial of the elevation runs: the arguments, or a start of the service where
/// there are none.
pub fn test_elevate(args: &[String]) -> (r: Vec<String>)
    ensures
        texts(r@) == (if args@.len() == 0 {
            seq!["--svc"@, "start"@]
        } else {
            texts(args@)
        }),
{
    if args.len() == 0 {
        let v = strings(&["--svc", "start"]);
        assert(texts(v@) =~= seq!["--svc"@, "start"@]);
        v
    } else {
        copy_strings(args)
    }
}

// ── What the interface asks for ─────────────────────────────────────────────

/// The command line of an elevated run.
pub open spec fn elevated_line(exe: Seq<char>, args: Seq<Seq<char>>) -> Seq<Seq<char>> {
    seq![exe] + args
}

proof fn lemma_modes_differ()
    ensures
        mode_words().no_duplicates(),
{
    reveal_strlit("--dump-args");
    reveal_strlit("--test-run");
    reveal_strlit("--test-net");
    reveal_strlit("--diag");
    reveal_strlit("--install-desktop");
    reveal_strlit("--update-dry");
    reveal_strlit("--fetch-core");
    reveal_strlit("--engine-up");
    reveal_strlit("--engine-down");
    reveal_strlit("--svc-run");
    reveal_strlit("--test-elevate");
    reveal_strlit("--svc");
    reveal_strlit("--apply-update");
    reveal_strlit("--autoselect");
    reveal_strlit("--write-list");
    let w = mode_words();
    assert(w[0].len() == 11 && w[7].len() == 11 && w[0][2] == 'd' && w[7][2] == 'e');
    assert(w[1].len() == 10 && w[2].len() == 10 && w[1][7] == 'r' && w[2][7] == 'n');
    assert(w[3].len() == 6 && w[4].len() == 17 && w[8].len() == 13 && w[9].len() == 9);
    assert(w[5].len() == 12 && w[6].len() == 12 && w[13].len() == 12 && w[14].len() == 12);
    assert(w[5][2] == 'u' && w[6][2] == 'f' && w[13][2] == 'a' && w[14][2] == 'w');
    assert(w[10].len() == 14 && w[12].len() == 14 && w[10][2] == 't' && w[12][2] == 'a');
    assert(w[11].len() == 5);
}

/// The words that choose what the program is to do.
pub open spec fn mode_words() -> Seq<Seq<char>> {
    seq![
        "--dump-args"@,
        "--test-run"@,
        "--test-net"@,
        "--diag"@,
        "--install-desktop"@,
        "--update-dry"@,
        "--fetch-core"@,
        "--engine-up"@,
        "--engine-down"@,
        "--svc-run"@,
        "--test-elevate"@,
        "--svc"@,
        "--apply-update"@,
        "--autoselect"@,
        "--write-list"@,
    ]
}

/// An elevated run does what the interface asked for: the words that choose a mode all
/// differ; the arguments of a start are read as an installation of the same strategy with
/// the same switch, and those of a stop and of an uninstallation as these; the arguments of
/// an auto-selection, of an update and of a list to write reach the part that reads them.
pub proof fn elevated_runs_are_understood(
    exe: Seq<char>,
    strategy: Seq<char>,
    gf: bool,
    s: AppView,
    use_lkg: bool,
    zips: Seq<Seq<char>>,
    dest: Seq<char>,
    src: Seq<char>,
)
    ensures
        mode_words().no_duplicates(),
        ({
            let args = seq!["--svc"@, "install"@, strategy, switch_word(gf)];
            &&& mode_of(elevated_line(exe, args)) == ModeView::Svc(args.skip(1))
            &&& svc_of(args.skip(1)) == SvcView::Install(strategy, gf)
        }),
        ({
            let args = seq!["--svc"@, "remove"@];
            &&& mode_of(elevated_line(exe, args)) == ModeView::Svc(args.skip(1))
            &&& svc_of(args.skip(1)) == SvcView::Remove
        }),
        ({
            let args = seq!["--svc"@, "uninstall"@];
            &&& mode_of(elevated_line(exe, args)) == ModeView::Svc(args.skip(1))
            &&& svc_of(args.skip(1)) == SvcView::Uninstall
        }),
        ({
            let args = selection_args(s, use_lkg, gf);
            &&& mode_of(elevated_line(exe, args)) == ModeView::Autoselect(args.skip(1))
            &&& args.skip(1).len() == 2
            &&& args.skip(1)[0] == "1"@ <==> gf
            &&& args.skip(1)[1] == known_good(s, use_lkg)
        }),
        mode_of(elevated_line(exe, seq!["--apply-update"@] + zips)) == ModeView::ApplyUpdate(zips),
        mode_of(elevated_line(exe, seq!["--write-list"@, dest, src])) == ModeView::WriteList(
            seq![dest, src],
        ),
{
    lemma_modes_differ();
    let w = mode_words();
    reveal_strlit("0");
    reveal_strlit("1");
    assert("0"@[0] == '0' && "1"@[0] == '1');
    reveal_strlit("install");
    reveal_strlit("remove");
    reveal_strlit("start");
    reveal_strlit("stop");
    reveal_strlit("uninstall");
    assert("install"@.len() == 7 && "remove"@.len() == 6 && "start"@.len() == 5 && "stop"@.len()
        == 4 && "uninstall"@.len() == 9);
    assert forall|args: Seq<Seq<char>>| args.len() > 0 implies #[trigger] args_from(
        elevated_line(exe, args),
        2,
    ) == args.skip(1) by {
        assert(args_from(elevated_line(exe, args), 2) =~= args.skip(1));
    }
    assert(w[11] == "--svc"@ && w[12] == "--apply-update"@ && w[13] == "--autoselect"@);
    let a = seq!["--svc"@, "install"@, strategy, switch_word(gf)];
    assert(elevated_line(exe, a)[1] == "--svc"@);
    assert(a.skip(1) =~= seq!["install"@, strategy, switch_word(gf)]);
    assert(mode_of(elevated_line(exe, a)) == ModeView::Svc(a.skip(1)));
    let b = seq!["--svc"@, "remove"@];
    assert(elevated_line(exe, b)[1] == "--svc"@);
    assert(b.skip(1) =~= seq!["remove"@]);
    let c = seq!["--svc"@, "uninstall"@];
    assert(elevated_line(exe, c)[1] == "--svc"@);
    assert(c.skip(1) =~= seq!["uninstall"@]);
    let d = selection_args(s, use_lkg, gf);
    assert(elevated_line(exe, d)[1] == "--autoselect"@);
    assert(d.skip(1) =~= seq![switch_word(gf), known_good(s, use_lkg)]);
    let e = seq!["--apply-update"@] + zips;
    assert(elevated_line(exe, e)[1] == "--apply-update"@);
    assert(e.skip(1) =~= zips);
    let f = seq!["--write-list"@, dest, src];
    assert(w[14] == "--write-list"@);
    assert(elevated_line(exe, f)[1] == "--write-list"@);
    assert(f.skip(1) =~= seq![dest, src]);
}

/// The service runs what it was installed with: its unit starts this program with the
/// strategy and the switch, which is read as the body of the service with the same strategy
/// and the same switch; and after its end the unit has everything taken down.
pub proof fn the_service_runs_what_was_installed(
    exe: Seq<char>,
    strategy: Seq<char>,
    gf: bool,
    uid: Option<u32>,
)
    ensures
        contains(
            unit_text(exe, strategy, gf, uid),
            "ExecStart="@ + quoted(exe) + " --svc-run "@ + quoted(strategy) + " "@ + switch_word(gf)
                + "\nExecStopPost="@ + quoted(exe) + UNIT_END@,
        ),
        begins(UNIT_END@, " --engine-down\n"@),
        mode_of(elevated_line(exe, seq!["--svc-run"@, strategy, switch_word(gf)]))
            == ModeView::SvcRun(Some(strategy), gf),
        mode_of(elevated_line(exe, seq!["--engine-down"@])) == ModeView::EngineDown,
{
    lemma_modes_differ();
    let w = mode_words();
    reveal_strlit("0");
    reveal_strlit("1");
    assert("0"@[0] == '0' && "1"@[0] == '1');
    assert(w[8] == "--engine-down"@ && w[9] == "--svc-run"@);
    let a = elevated_line(exe, seq!["--svc-run"@, strategy, switch_word(gf)]);
    assert(a[1] == "--svc-run"@ && a[2] == strategy && a[3] == switch_word(gf));
    let b = elevated_line(exe, seq!["--engine-down"@]);
    assert(b[1] == "--engine-down"@);
    let head = UNIT_HEAD@ + STRATEGY_MARKER@ + strategy + UNIT_MIDDLE@ + env_line(uid);
    let tail = "ExecStart="@ + quoted(exe) + " --svc-run "@ + quoted(strategy) + " "@
        + switch_word(gf) + "\nExecStopPost="@ + quoted(exe) + UNIT_END@;
    let all = unit_text(exe, strategy, gf, uid);
    assert(all =~= head + tail);
    assert(all.subrange(head.len() as int, (head.len() + tail.len()) as int) =~= tail);
    assert(at(all, head.len() as int, tail));
    reveal_strlit(" --engine-down\n");
    reveal_strlit(
        " --engine-down\nKillMode=mixed\nRestart=on-failure\nRestartSec=3\n\n[Install]\nWantedBy=multi-user.target\n",
    );
    assert(UNIT_END@.take(" --engine-down\n"@.len() as int) =~= " --engine-down\n"@);
}

/// The first word behind the name of the program decides what it does, and what follows it
/// reaches that part unchanged. Another word, or none, shows the window.
pub proof fn every_word_has_its_mode(exe: Seq<char>, word: Seq<char>, rest: Seq<Seq<char>>)
    ensures
        ({
            let first = if rest.len() > 0 {
                Some(rest[0])
            } else {
                None
            };
            let line = |w: Seq<char>| seq![exe, w] + rest;
            &&& mode_of(line("--dump-args"@)) == ModeView::DumpArgs(first)
            &&& mode_of(line("--test-run"@)) == ModeView::TestRun(first)
            &&& mode_of(line("--test-net"@)) == ModeView::TestNet
            &&& mode_of(line("--diag"@)) == ModeView::Diag
            &&& mode_of(line("--install-desktop"@)) == ModeView::InstallDesktop
            &&& mode_of(line("--update-dry"@)) == ModeView::UpdateDry
            &&& mode_of(line("--fetch-core"@)) == ModeView::FetchCore(first)
            &&& mode_of(line("--engine-up"@)) == ModeView::EngineUp(first)
            &&& mode_of(line("--engine-down"@)) == ModeView::EngineDown
            &&& mode_of(line("--svc-run"@)) == ModeView::SvcRun(
                first,
                rest.len() > 1 && rest[1] == "1"@,
            )
            &&& mode_of(line("--test-elevate"@)) == ModeView::TestElevate(rest)
            &&& mode_of(line("--svc"@)) == ModeView::Svc(rest)
            &&& mode_of(line("--apply-update"@)) == ModeView::ApplyUpdate(rest)
            &&& mode_of(line("--autoselect"@)) == ModeView::Autoselect(rest)
            &&& mode_of(line("--write-list"@)) == ModeView::WriteList(rest)
            &&& !mode_words().contains(word) ==> mode_of(line(word)) == ModeView::Gui
        }),
        mode_of(seq![exe]) == ModeView::Gui,
        mode_of(Seq::empty()) == ModeView::Gui,
{
    lemma_modes_differ();
    let w = mode_words();
    assert forall|i: int| 0 <= i < 15 implies {
        let line = seq![exe, #[trigger] w[i]] + rest;
        &&& line[1] == w[i] && args_from(line, 2) == rest
        &&& rest.len() > 0 ==> line[2] == rest[0]
        &&& rest.len() > 1 ==> line[3] == rest[1]
    } by {
        let line = seq![exe, w[i]] + rest;
        assert(args_from(line, 2) =~= rest);
    }
    assert(w[0] == "--dump-args"@ && w[1] == "--test-run"@ && w[2] == "--test-net"@);
    assert(w[3] == "--diag"@ && w[4] == "--install-desktop"@ && w[5] == "--update-dry"@);
    assert(w[6] == "--fetch-core"@ && w[7] == "--engine-up"@ && w[8] == "--engine-down"@);
    assert(w[9] == "--svc-run"@ && w[10] == "--test-elevate"@ && w[11] == "--svc"@);
    assert(w[12] == "--apply-update"@ && w[13] == "--autoselect"@ && w[14] == "--write-list"@);
    let line = seq![exe, word] + rest;
    assert(line[1] == word);
    assert forall|i: int| 0 <= i < 15 && !w.contains(word) implies #[trigger] w[i] != word by {}
}

/// The role in the log follows from what the program does: the service, the auto-selection
/// and the update have roles of their own, every other run from the command line is a
/// diagnostic one, and a window is a window.
pub proof fn the_role_follows_the_mode(args: Seq<Seq<char>>)
    ensures
        mode_of(args) is Svc || mode_of(args) is SvcRun || mode_of(args) is WriteList ==> role_of(
            args,
        ) == "svc"@,
        mode_of(args) is Autoselect ==> role_of(args) == "autoselect"@,
        mode_of(args) is ApplyUpdate ==> role_of(args) == "update"@,
        mode_of(args) is DumpArgs || mode_of(args) is TestRun || mode_of(args) is TestNet
            || mode_of(args) is Diag || mode_of(args) is InstallDesktop || mode_of(
            args,
        ) is UpdateDry || mode_of(args) is FetchCore || mode_of(args) is EngineUp || mode_of(
            args,
        ) is EngineDown || mode_of(args) is TestElevate ==> role_of(args) == "diag"@,
        args.len() < 2 || args[1].len() < 2 || args[1][0] != '-' || args[1][1] != '-' ==> role_of(
            args,
        ) == "gui"@ && mode_of(args) is Gui,
{
    lemma_modes_differ();
    let w = mode_words();
    assert(w[0] == "--dump-args"@ && w[1] == "--test-run"@ && w[2] == "--test-net"@);
    assert(w[3] == "--diag"@ && w[4] == "--install-desktop"@ && w[5] == "--update-dry"@);
    assert(w[6] == "--fetch-core"@ && w[7] == "--engine-up"@ && w[8] == "--engine-down"@);
    assert(w[9] == "--svc-run"@ && w[10] == "--test-elevate"@ && w[11] == "--svc"@);
    assert(w[12] == "--apply-update"@ && w[13] == "--autoselect"@ && w[14] == "--write-list"@);
    lemma_words_begin();
    reveal_strlit("--");
    if args.len() >= 2 {
        let a = args[1];
        if a.len() >= 2 && a[0] == '-' && a[1] == '-' {
            assert(a.take(2) =~= "--"@);
        } else {
            if begins(a, "--"@) {
                assert(a.take(2)[0] == a[0] && a.take(2)[1] == a[1]);
            }
            assert forall|i: int| 0 <= i < 15 implies #[trigger] w[i] != a by {}
        }
    }
}

proof fn lemma_words_begin()
    ensures
        forall|i: int|
            0 <= i < 15 ==> (#[trigger] mode_words()[i]).len() > 2 && mode_words()[i][0] == '-'
                && mode_words()[i][1] == '-',
{
    reveal_strlit("--dump-args");
    reveal_strlit("--test-run");
    reveal_strlit("--test-net");
    reveal_strlit("--diag");
    reveal_strlit("--install-desktop");
    reveal_strlit("--update-dry");
    reveal_strlit("--fetch-core");
    reveal_strlit("--engine-up");
    reveal_strlit("--engine-down");
    reveal_strlit("--svc-run");
    reveal_strlit("--test-elevate");
    reveal_strlit("--svc");
    reveal_strlit("--apply-update");
    reveal_strlit("--autoselect");
    reveal_strlit("--write-list");
}

/// A change of the service is named by its first word. An installation takes the strategy
/// and the switch behind it, of which only `1` is on and a missing one is off; a word that
/// names no change is told in the error.
pub proof fn changes_of_the_service_are_read(
    name: Seq<char>,
    switch: Seq<char>,
    rest: Seq<Seq<char>>,
    word: Seq<char>,
)
    ensures
        svc_of(seq!["install"@, name, switch] + rest) == SvcView::Install(name, switch == "1"@),
        svc_of(seq!["install"@, name]) == SvcView::Install(name, false),
        svc_of(seq!["install"@]) == SvcView::Install(""@, false),
        svc_of(seq!["remove"@] + rest) == SvcView::Remove,
        svc_of(seq!["start"@] + rest) == SvcView::Start,
        svc_of(seq!["stop"@] + rest) == SvcView::Stop,
        svc_of(seq!["uninstall"@] + rest) == SvcView::Uninstall,
        word != "install"@ && word != "remove"@ && word != "start"@ && word != "stop"@ && word
            != "uninstall"@ ==> svc_of(seq![word] + rest) == SvcView::Unknown(
            "неизвестная операция службы: "@ + word,
        ),
        svc_of(Seq::empty()) is Unknown,
{
    reveal_strlit("");
    reveal_strlit("install");
    reveal_strlit("remove");
    reveal_strlit("start");
    reveal_strlit("stop");
    reveal_strlit("uninstall");
    assert(""@.len() == 0 && "install"@.len() == 7 && "remove"@.len() == 6 && "start"@.len() == 5
        && "stop"@.len() == 4 && "uninstall"@.len() == 9);
    let a = seq!["install"@, name, switch] + rest;
    assert(a[0] == "install"@ && a[1] == name && a[2] == switch);
    assert((seq!["remove"@] + rest)[0] == "remove"@);
    assert((seq!["start"@] + rest)[0] == "start"@);
    assert((seq!["stop"@] + rest)[0] == "stop"@);
    assert((seq!["uninstall"@] + rest)[0] == "uninstall"@);
    assert((seq![word] + rest)[0] == word);
}

/// The interface waits for what it has asked for: it expects a running bypass exactly after
/// an installation or a start, and a removed one exactly after a removal, a stop or an
/// uninstallation.
pub proof fn what_was_asked_for_is_awaited(word: Seq<char>, rest: Seq<Seq<char>>)
    ensures
        ({
            let exp = expectation_of(seq!["--svc"@, word] + rest);
            let action = svc_of(seq![word] + rest);
            &&& exp.running <==> action is Install || action is Start
            &&& exp.removed <==> action is Remove || action is Stop || action is Uninstall
        }),
{
    reveal_strlit("install");
    reveal_strlit("remove");
    reveal_strlit("start");
    reveal_strlit("stop");
    reveal_strlit("uninstall");
    assert("install"@.len() == 7 && "remove"@.len() == 6 && "start"@.len() == 5 && "stop"@.len()
        == 4 && "uninstall"@.len() == 9);
    assert((seq!["--svc"@, word] + rest)[1] == word);
    assert((seq![word] + rest)[0] == word);
}

} // verus!
