//! The bypass engine of Windows: `winws`, which captures the traffic itself.
use vstd::prelude::*;

use super::service::{install, remove, stop_driver, Install};
use super::strategy::resolve_game_filter;
use crate::platform::{state_text, EngineCommand, ServiceState};
use crate::script::{excuse, Step};
use crate::strategies::{find_named, Strategy};
use crate::text::{cat, cat3, chars_of, ends_with, signed_text, tail, trim_char};

verus! {

use super::service::{driver_script, remove_script};
use crate::platform::linux::strategy::{all_filtered, game_filter_is_settled, has_placeholder};
use crate::platform::{state_word, EngineCommandView};
use crate::script::{excused, script};
use crate::strategies::{index_named, views, StrategyView};
use crate::text::{
    at, contains, ends, only, signed, texts, trim_by, trimming_takes_off_the_ends,
};

/// `name` below the directory `dir`, as Windows writes it.
pub open spec fn win_below(dir: Seq<char>, name: Seq<char>) -> Seq<char> {
    if dir.len() == 0 || dir.last() == '\\' || dir.last() == '/' || (dir.len() == 2 && dir[1]
        == ':') {
        dir + name
    } else {
        dir + "\\"@ + name
    }
}

/// `name`, which is relative, below the directory `dir`. Behind the bare letter of a drive
/// there is no separator.
pub fn win_join(dir: &str, name: &str) -> (r: String)
    ensures
        r@ == win_below(dir@, name@),
{
    let v = chars_of(dir);
    let n: usize = v.len();
    if n == 0 || v[n - 1] == '\\' || v[n - 1] == '/' || (n == 2 && v[1] == ':') {
        cat(dir, name)
    } else {
        cat3(dir, "\\", name)
    }
}

/// The command of the engine for a strategy, where `core` is the directory of the core.
pub open spec fn engine_call(core: Seq<char>, s: StrategyView, gf: bool) -> EngineCommandView {
    let bin = win_below(core, "bin"@);
    EngineCommandView {
        program: win_below(bin, "winws.exe"@),
        cwd: bin,
        args: all_filtered(s.args, gf),
    }
}

/// The command of the engine for a strategy; nothing without a core.
pub fn engine_command(core: Option<&str>, strat: &Strategy, game_filter: bool) -> (r: Option<
    EngineCommand,
>)
    ensures
        match core {
            Some(c) => r matches Some(e) && e@ == engine_call(c@, strat@, game_filter),
            None => r is None,
        },
{
    match core {
        None => None,
        Some(c) => {
            let bin = win_join(c, "bin");
            Some(
                EngineCommand {
                    program: win_join(bin.as_str(), "winws.exe"),
                    cwd: bin,
                    args: resolve_game_filter(&strat.args, game_filter),
                },
            )
        },
    }
}

/// The command of the engine for one probe of the auto-selection.
pub fn spawn_probe(core: Option<&str>, strat: &Strategy, game_filter: bool) -> (r: Result<
    EngineCommand,
    String,
>)
    ensures
        match core {
            Some(c) => r matches Ok(e) && e@ == engine_call(c@, strat@, game_filter),
            None => r matches Err(e) && e@ == "ядро не найдено"@,
        },
{
    match engine_command(core, strat, game_filter) {
        Some(e) => Ok(e),
        None => Err("ядро не найдено".to_owned()),
    }
}

// ── Lists ───────────────────────────────────────────────────────────────────

/// What follows the last `=`; all of `s` without one.
pub open spec fn after_last_eq(s: Seq<char>) -> Seq<char>
    decreases s.len(),
{
    if s.len() == 0 {
        s
    } else if s.last() == '=' {
        Seq::empty()
    } else {
        after_last_eq(s.drop_last()).push(s.last())
    }
}

/// The list of the user that an argument names, if it names one.
pub open spec fn user_list(a: Seq<char>) -> Option<Seq<char>> {
    let p = trim_by(after_last_eq(a), only('"'));
    if ends(p, "-user.txt"@) {
        Some(p)
    } else {
        None
    }
}

/// The lists of the user that arguments name.
pub open spec fn user_lists(args: Seq<Seq<char>>) -> Seq<Seq<char>>
    decreases args.len(),
{
    if args.len() == 0 {
        Seq::empty()
    } else {
        let before = user_lists(args.drop_last());
        match user_list(args.last()) {
            Some(p) => before.push(p),
            None => before,
        }
    }
}

fn last_value<'a>(s: &'a str) -> (r: &'a str)
    ensures
        r@ == after_last_eq(s@),
{
    let v = chars_of(s);
    let n: usize = v.len();
    let mut i: usize = n;
    proof {
        assert(s@.take(n as int) =~= s@);
        assert(s@.skip(n as int) =~= Seq::<char>::empty());
        assert(after_last_eq(s@) + Seq::<char>::empty() =~= after_last_eq(s@));
    }
    while i > 0 && v[i - 1] != '='
        invariant
            i <= n,
            n == v@.len(),
            v@ == s@,
            after_last_eq(s@) == after_last_eq(s@.take(i as int)) + s@.skip(i as int),
        decreases i,
    {
        proof {
            let t = s@.take(i as int);
            assert(t.drop_last() =~= s@.take(i - 1));
            assert(t.last() == s@[i - 1]);
            assert(after_last_eq(s@.take(i - 1)).push(s@[i - 1]) + s@.skip(i as int)
                =~= after_last_eq(s@.take(i - 1)) + s@.skip(i - 1));
        }
        i -= 1;
    }
    proof {
        if i > 0 {
            assert(s@.take(i as int).last() == v@[i - 1]);
        }
        assert(after_last_eq(s@.take(i as int)) =~= Seq::<char>::empty());
        assert(Seq::<char>::empty() + s@.skip(i as int) =~= s@.skip(i as int));
    }
    tail(s, i)
}

/// The lists of the user that the engine will open. Those that are missing are to be made
/// empty: the engine stops on a missing one.
pub fn ensure_user_lists(args: &[String]) -> (r: Vec<String>)
    ensures
        texts(r@) == user_lists(texts(args@)),
{
    let ghost all = texts(args@);
    let mut v: Vec<String> = Vec::new();
    let mut i: usize = 0;
    assert(all.take(0) =~= Seq::<Seq<char>>::empty());
    while i < args.len()
        invariant
            i <= args@.len(),
            all == texts(args@),
            texts(v@) == user_lists(all.take(i as int)),
        decreases args@.len() - i,
    {
        let ghost before = texts(v@);
        proof {
            assert(all.take(i + 1).drop_last() =~= all.take(i as int));
            assert(all.take(i + 1).last() == args@[i as int]@);
        }
        let p = trim_char(last_value(args[i].as_str()), '"');
        if ends_with(p, "-user.txt") {
            v.push(p.to_owned());
            assert(texts(v@) =~= before.push(p@));
        }
        i += 1;
    }
    assert(all.take(all.len() as int) =~= all);
    v
}

/// The lists of the user that any of the strategies names.
pub open spec fn sweep_lists(list: Seq<StrategyView>, gf: bool) -> Seq<Seq<char>>
    decreases list.len(),
{
    if list.len() == 0 {
        Seq::empty()
    } else {
        sweep_lists(list.drop_last(), gf) + user_lists(all_filtered(list.last().args, gf))
    }
}

// ── Before a sweep ──────────────────────────────────────────────────────────

/// What must be done before the auto-selection tries its strategies.
#[derive(Debug)]
pub struct Sweep {
    /// The lists that must exist.
    pub lists: Vec<String>,
    /// Removes the service where one is there, or an engine runs: it would hold the driver,
    /// and every probe would fail.
    pub clear: Option<Vec<Step>>,
    /// Unloads the driver, which an engine that failed may have left in use.
    pub driver: Vec<Step>,
    /// One run of the engine that loads the driver, before anything is measured.
    pub prime: Option<EngineCommand>,
}

/// What must be done before the auto-selection tries its strategies. `state` is the state
/// of the service, `alive` the process of an engine.
pub fn prepare_sweep(
    core: Option<&str>,
    ordered: &[Strategy],
    game_filter: bool,
    state: ServiceState,
    alive: Option<u32>,
) -> (r: Sweep)
    ensures
        texts(r.lists@) == sweep_lists(views(ordered@), game_filter),
        script(r.driver@) == driver_script(),
        match r.clear {
            Some(s) => (state is Running || state is Stopped || alive is Some) && script(s@)
                == excused(remove_script(), false),
            None => !(state is Running || state is Stopped || alive is Some),
        },
        match r.prime {
            Some(e) => core is Some && ordered@.len() > 0 && e@ == engine_call(
                core->0@,
                ordered@[0]@,
                game_filter,
            ),
            None => core is None || ordered@.len() == 0,
        },
{
    let ghost all = views(ordered@);
    let mut lists: Vec<String> = Vec::new();
    let mut i: usize = 0;
    proof {
        assert(all.take(0) =~= Seq::<StrategyView>::empty());
        assert(texts(lists@) =~= Seq::<Seq<char>>::empty());
    }
    while i < ordered.len()
        invariant
            i <= ordered@.len(),
            all == views(ordered@),
            texts(lists@) == sweep_lists(all.take(i as int), game_filter),
        decreases ordered@.len() - i,
    {
        let ghost before = texts(lists@);
        proof {
            assert(all.take(i + 1).drop_last() =~= all.take(i as int));
            assert(all.take(i + 1).last() == ordered@[i as int]@);
        }
        let args = resolve_game_filter(&ordered[i].args, game_filter);
        let mut more = ensure_user_lists(&args);
        let ghost added = texts(more@);
        lists.append(&mut more);
        assert(texts(lists@) =~= before + added);
        i += 1;
    }
    assert(all.take(all.len() as int) =~= all);
    let clear = if state.installed() || alive.is_some() {
        let mut s = remove();
        excuse(&mut s, false);
        Some(s)
    } else {
        None
    };
    let prime = if ordered.len() > 0 {
        engine_command(core, &ordered[0], game_filter)
    } else {
        None
    };
    Sweep { lists, clear, driver: stop_driver(), prime }
}

/// A code of a process as it is shown in the log.
pub open spec fn code_word(code: Option<i32>) -> Seq<char> {
    match code {
        Some(c) => "Some("@ + signed(c as int) + ")"@,
        None => "None"@,
    }
}

/// What the engine has printed, as the tail of a log line.
pub open spec fn output_tail(out: Seq<char>) -> Seq<char> {
    if out.len() == 0 {
        Seq::empty()
    } else {
        " · winws: "@ + out
    }
}

fn code_text(code: Option<i32>) -> (r: String)
    ensures
        r@ == code_word(code),
{
    match code {
        Some(c) => cat3("Some(", signed_text(c).as_str(), ")"),
        None => "None".to_owned(),
    }
}

fn output_text(out: &str) -> (r: String)
    ensures
        r@ == output_tail(out@),
{
    if out.is_empty() {
        let s = String::new();
        assert(s@ =~= Seq::<char>::empty());
        s
    } else {
        cat(" · winws: ", out)
    }
}

/// What the log says when the engine ended at once in the priming run.
pub fn prime_failure(code: Option<i32>, out: &str) -> (r: String)
    ensures
        r@ == "прайм: winws сразу вышел (код "@ + code_word(code) + ")"@ + output_tail(out@),
{
    let mut s = cat3("прайм: winws сразу вышел (код ", code_text(code).as_str(), ")");
    s.append(output_text(out).as_str());
    s
}

/// What the log says when the engine stayed up in the priming run: the state of the driver.
pub fn prime_done(driver: ServiceState, out: &str) -> (r: String)
    ensures
        r@ == "прайм завершён, WinDivert: "@ + state_word(driver) + output_tail(out@),
{
    let mut s = cat("прайм завершён, WinDivert: ", state_text(driver));
    s.append(output_text(out).as_str());
    s
}

/// What the log says of a diagnostic run of the engine: whether it ended early, and with
/// which code.
pub fn diagnosis(early: Option<Option<i32>>, out: &str) -> (r: String)
    ensures
        r@ == "диагностика winws: "@ + (match early {
            Some(code) => "вышел код "@ + code_word(code),
            None => "остался жив при прямом запуске (проблема в режиме службы)"@,
        }) + output_tail(out@),
{
    let how = match early {
        Some(code) => cat("вышел код ", code_text(code).as_str()),
        None => "остался жив при прямом запуске (проблема в режиме службы)".to_owned(),
    };
    let mut s = cat("диагностика winws: ", how.as_str());
    s.append(output_text(out).as_str());
    s
}

// ── The service ─────────────────────────────────────────────────────────────

/// What installing the service with a strategy takes.
#[derive(Debug)]
pub struct ServicePlan {
    /// The lists that must exist.
    pub lists: Vec<String>,
    /// Unloads the driver, which an engine that failed may have left in use.
    pub driver: Vec<Step>,
    pub install: Install,
    pub command: EngineCommand,
}

/// What installing the service with a strategy takes, or why it cannot be: there is no
/// core, no such strategy, or no engine (`exe_exists`).
pub fn install_service(
    core: Option<&str>,
    strategies: &[Strategy],
    strategy_name: &str,
    exe_exists: bool,
    game_filter: bool,
) -> (r: Result<ServicePlan, String>)
    ensures
        core is None ==> (r matches Err(e) && e@ == "ядро не найдено"@),
        core is Some && index_named(views(strategies@), strategy_name@) is None ==> (r matches Err(
            e,
        ) && e@ == "стратегия не найдена: "@ + strategy_name@),
        core is Some && index_named(views(strategies@), strategy_name@) is Some && !exe_exists
            ==> (r matches Err(e) && e@ == "не найден "@ + win_below(
            win_below(core->0@, "bin"@),
            "winws.exe"@,
        )),
        core is Some && index_named(views(strategies@), strategy_name@) is Some && exe_exists
            ==> ({
            let s = views(strategies@)[index_named(views(strategies@), strategy_name@)->0];
            let call = engine_call(core->0@, s, game_filter);
            let path = super::service::bin_path(call.program, call.args);
            &&& r matches Ok(p)
            &&& p.command@ == call
            &&& texts(p.lists@) == user_lists(call.args)
            &&& script(p.driver@) == driver_script()
            &&& script(p.install.cleanup@) == excused(remove_script(), false)
            &&& match p.install.create {
                Ok(c) => super::service::byte_len(path) <= super::service::MAX_BIN_PATH && script(
                    c@,
                ) == super::service::create_script(path, strategy_name@),
                Err(e) => super::service::byte_len(path) > super::service::MAX_BIN_PATH && e@
                    == super::service::too_long(path),
            }
        }),
{
    match core {
        None => Err("ядро не найдено".to_owned()),
        Some(c) => match find_named(strategies, strategy_name) {
            None => Err(cat("стратегия не найдена: ", strategy_name)),
            Some(i) => {
                let bin = win_join(c, "bin");
                let program = win_join(bin.as_str(), "winws.exe");
                if !exe_exists {
                    return Err(cat("не найден ", program.as_str()));
                }
                assert(views(strategies@)[i as int] == strategies@[i as int]@);
                let args = resolve_game_filter(&strategies[i].args, game_filter);
                let lists = ensure_user_lists(&args);
                let plan = install(program.as_str(), &args, strategy_name);
                Ok(
                    ServicePlan {
                        lists,
                        driver: stop_driver(),
                        install: plan,
                        command: EngineCommand { program, cwd: bin, args },
                    },
                )
            },
        },
    }
}

// ── What holds of every start ───────────────────────────────────────────────

/// The engine is the one of the core, it runs beside its files, and it gets every argument of
/// the strategy in its order: unchanged where it has no place for the game filter.
pub proof fn the_engine_of_the_core_is_run(
    core: Seq<char>,
    s: StrategyView,
    gf: bool,
    i: int,
)
    requires
        core.len() > 2,
        core.last() != '\\',
        core.last() != '/',
        0 <= i < s.args.len(),
    ensures
        ({
            let c = engine_call(core, s, gf);
            &&& c.program == core + "\\bin\\winws.exe"@
            &&& c.cwd == core + "\\bin"@
            &&& c.args.len() == s.args.len()
            &&& !has_placeholder(s.args[i]) ==> c.args[i] == s.args[i]
        }),
{
    reveal_strlit("\\");
    reveal_strlit("bin");
    reveal_strlit("winws.exe");
    reveal_strlit("\\bin");
    reveal_strlit("\\bin\\winws.exe");
    let bin = core + "\\"@ + "bin"@;
    assert(bin =~= core + "\\bin"@);
    assert(bin.last() == 'n');
    assert(bin + "\\"@ + "winws.exe"@ =~= core + "\\bin\\winws.exe"@);
    game_filter_is_settled(s.args[i], gf, gf);
}

proof fn lemma_after_last_eq(a: Seq<char>, v: Seq<char>)
    requires
        !v.contains('='),
    ensures
        after_last_eq(a + seq!['='] + v) == v,
        after_last_eq(v) == v,
    decreases v.len(),
{
    let s = a + seq!['='] + v;
    if v.len() == 0 {
        assert(s.last() == '=');
        assert(after_last_eq(s) =~= v);
    } else {
        let t = v.drop_last();
        assert(v.contains(v.last()));
        assert(!t.contains('=')) by {
            if t.contains('=') {
                let i = choose|i: int| 0 <= i < t.len() && t[i] == '=';
                assert(v[i] == '=');
            }
        }
        lemma_after_last_eq(a, t);
        assert(s.drop_last() =~= a + seq!['='] + t);
        assert(s.last() == v.last());
        assert(t.push(v.last()) =~= v);
    }
}

/// The lists that must exist are the lists of the user that the arguments name behind a `=`,
/// in quotation marks or not and in their order; no other argument names one. Those of a
/// sweep are those of all its strategies.
pub proof fn every_list_of_the_user_must_exist(
    flag: Seq<char>,
    p: Seq<char>,
    a: Seq<Seq<char>>,
    b: Seq<Seq<char>>,
    other: Seq<char>,
)
    requires
        !p.contains('='),
        p.len() > 0,
        p[0] != '"',
    ensures
        user_lists(a + b) == user_lists(a) + user_lists(b),
        user_lists(seq![flag + "="@ + p + "-user.txt"@]) == seq![p + "-user.txt"@],
        user_lists(seq![flag + "=\""@ + p + "-user.txt\""@]) == seq![p + "-user.txt"@],
        !contains(other, "-user.txt"@) ==> user_lists(seq![other]) == Seq::<Seq<char>>::empty(),
    decreases b.len(),
{
    if b.len() == 0 {
        assert(a + b =~= a);
        assert(user_lists(a) + user_lists(b) =~= user_lists(a));
    } else {
        every_list_of_the_user_must_exist(flag, p, a, b.drop_last(), other);
        assert((a + b).drop_last() =~= a + b.drop_last());
        assert((a + b).last() == b.last());
        assert(user_lists(a + b) =~= user_lists(a) + user_lists(b));
    }
    reveal_strlit("=");
    reveal_strlit("=\"");
    reveal_strlit("-user.txt");
    reveal_strlit("-user.txt\"");
    let none = Seq::<char>::empty();
    let q = seq!['"'];
    let v = p + "-user.txt"@;
    let x = flag + "="@ + p + "-user.txt"@;
    let y = flag + "=\""@ + p + "-user.txt\""@;
    assert(x =~= flag + seq!['='] + v);
    assert(y =~= flag + seq!['='] + (q + v + q));
    assert(!v.contains('=')) by {
        if v.contains('=') {
            let i = choose|i: int| 0 <= i < v.len() && v[i] == '=';
            if i < p.len() {
                assert(p[i] == '=');
            }
        }
    }
    let w = q + v + q;
    assert(!w.contains('=')) by {
        if w.contains('=') {
            let i = choose|i: int| 0 <= i < w.len() && w[i] == '=';
            assert(v[i - 1] == '=');
        }
    }
    lemma_after_last_eq(flag, v);
    lemma_after_last_eq(flag, w);
    assert(v[0] == p[0] && v.last() == 't');
    assert forall|i: int| 0 <= i < q.len() implies only('"')(#[trigger] q[i]) by {}
    trimming_takes_off_the_ends(none, v, none, only('"'));
    assert(none + v + none =~= v);
    trimming_takes_off_the_ends(q, v, q, only('"'));
    assert(v.skip(v.len() - 9) =~= "-user.txt"@);
    lemma_one_user_list(x);
    lemma_one_user_list(y);
    lemma_one_user_list(other);
    if !contains(other, "-user.txt"@) {
        lemma_value_within(other);
        let u = trim_by(after_last_eq(other), only('"'));
        if ends(u, "-user.txt"@) {
            let k = u.len() - 9;
            assert(u.subrange(k, k + 9) =~= u.skip(k));
            assert(at(u, k, "-user.txt"@));
        }
    }
}

proof fn lemma_one_user_list(a: Seq<char>)
    ensures
        user_lists(seq![a]) == (match user_list(a) {
            Some(p) => seq![p],
            None => Seq::empty(),
        }),
{
    reveal_with_fuel(user_lists, 2);
    assert(seq![a].drop_last() =~= Seq::empty());
    match user_list(a) {
        Some(p) => {
            assert(Seq::<Seq<char>>::empty().push(p) =~= seq![p]);
        },
        None => {},
    }
}

proof fn lemma_value_within(s: Seq<char>)
    ensures
        contains(trim_by(after_last_eq(s), only('"')), "-user.txt"@) ==> contains(
            s,
            "-user.txt"@,
        ),
{
    let v = after_last_eq(s);
    lemma_suffix(s);
    let t = crate::text::trim_start_by(v, only('"'));
    crate::text::lemma_trim_start_fact(v, only('"'));
    crate::text::lemma_trim_end_fact(t, only('"'));
    let u = trim_by(v, only('"'));
    let pat = "-user.txt"@;
    if contains(u, pat) {
        let i = choose|i: int| at(u, i, pat);
        let k = s.len() - v.len() + (v.len() - t.len()) + i;
        assert(s.subrange(k, k + pat.len()) =~= u.subrange(i, i + pat.len()));
        assert(at(s, k, pat));
    }
}

proof fn lemma_suffix(s: Seq<char>)
    ensures
        after_last_eq(s).len() <= s.len(),
        after_last_eq(s) == s.skip(s.len() - after_last_eq(s).len()),
    decreases s.len(),
{
    if s.len() == 0 {
        assert(s.skip(0) =~= s);
    } else if s.last() == '=' {
        assert(s.skip(s.len() as int) =~= Seq::empty());
    } else {
        let t = s.drop_last();
        lemma_suffix(t);
        let v = after_last_eq(t);
        assert(v.push(s.last()) =~= s.skip(t.len() - v.len()));
    }
}

/// The lists of a sweep are those of its strategies, one strategy after the other.
pub proof fn a_sweep_needs_the_lists_of_all(
    a: Seq<StrategyView>,
    b: Seq<StrategyView>,
    gf: bool,
)
    ensures
        sweep_lists(a + b, gf) == sweep_lists(a, gf) + sweep_lists(b, gf),
        a.len() == 1 ==> sweep_lists(a, gf) == user_lists(all_filtered(a[0].args, gf)),
    decreases b.len(),
{
    reveal_with_fuel(sweep_lists, 2);
    if b.len() == 0 {
        assert(a + b =~= a);
        assert(sweep_lists(a, gf) + sweep_lists(b, gf) =~= sweep_lists(a, gf));
    } else {
        a_sweep_needs_the_lists_of_all(a, b.drop_last(), gf);
        assert((a + b).drop_last() =~= a + b.drop_last());
        assert((a + b).last() == b.last());
        assert(sweep_lists(a + b, gf) =~= sweep_lists(a, gf) + sweep_lists(b, gf));
    }
    if a.len() == 1 {
        assert(a.drop_last() =~= Seq::empty());
        assert(sweep_lists(a, gf) =~= user_lists(all_filtered(a[0].args, gf)));
    }
}

} // verus!
