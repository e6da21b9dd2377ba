//! Elevated operations as the interface sees them: what they are expected to bring about,
//! how long it waits for that, and what it says in the end.
use vstd::prelude::*;

use crate::logging::Level;
use crate::platform::{bool_text, pid_text, state_text, ServiceState};
use crate::text::{cat, cat3, copy_strings, join, same, signed_text, strings};

verus! {

use crate::platform::{bool_word, pid_word, state_word};
use crate::text::{at, begins, contains, joined, opt_text, signed, texts};

/// An operation on the service that needs rights: the arguments of the elevated run, and
/// what it is called in the log.
#[derive(Debug)]
pub struct Operation {
    pub args: Vec<String>,
    pub what: String,
}

/// An operation as a mathematical value.
#[verifier::ext_equal]
pub struct OperationView {
    pub args: Seq<Seq<char>>,
    pub what: Seq<char>,
}

impl View for Operation {
    type V = OperationView;

    open spec fn view(&self) -> OperationView {
        OperationView { args: texts(self.args@), what: self.what@ }
    }
}

/// `1` or `0`.
pub open spec fn switch_word(on: bool) -> Seq<char> {
    if on {
        "1"@
    } else {
        "0"@
    }
}

/// `1` or `0`.
pub fn switch_text(on: bool) -> (r: &'static str)
    ensures
        r@ == switch_word(on),
{
    if on {
        "1"
    } else {
        "0"
    }
}

/// The operation that installs the service with a strategy.
pub open spec fn installing(strategy: Seq<char>, game_filter: bool) -> OperationView {
    OperationView {
        args: seq!["--svc"@, "install"@, strategy, switch_word(game_filter)],
        what: "запуск обхода · "@ + strategy,
    }
}

/// The operation that stops the bypass and removes the service.
pub open spec fn removing() -> OperationView {
    OperationView { args: seq!["--svc"@, "remove"@], what: "остановка обхода"@ }
}

/// The operation that removes the service and the driver.
pub open spec fn uninstalling() -> OperationView {
    OperationView { args: seq!["--svc"@, "uninstall"@], what: "удаление службы и драйвера"@ }
}

/// Installs the service with a strategy, and so starts the bypass.
pub fn install_operation(strategy: &str, game_filter: bool) -> (r: Operation)
    ensures
        r@ == (OperationView {
            args: seq!["--svc"@, "install"@, strategy@, switch_word(game_filter)],
            what: "запуск обхода · "@ + strategy@,
        }),
        r@ == installing(strategy@, game_filter),
{
    let args = strings(&["--svc", "install", strategy, switch_text(game_filter)]);
    assert(texts(args@) =~= seq!["--svc"@, "install"@, strategy@, switch_word(game_filter)]);
    Operation { args, what: cat("запуск обхода · ", strategy) }
}

/// Stops the bypass and removes the service.
pub fn remove_operation() -> (r: Operation)
    ensures
        r@ == (OperationView { args: seq!["--svc"@, "remove"@], what: "остановка обхода"@ }),
        r@ == removing(),
{
    let args = strings(&["--svc", "remove"]);
    assert(texts(args@) =~= seq!["--svc"@, "remove"@]);
    Operation { args, what: "остановка обхода".to_owned() }
}

/// Removes the service and the driver.
pub fn uninstall_operation() -> (r: Operation)
    ensures
        r@ == (OperationView {
            args: seq!["--svc"@, "uninstall"@],
            what: "удаление службы и драйвера"@,
        }),
        r@ == uninstalling(),
{
    let args = strings(&["--svc", "uninstall"]);
    assert(texts(args@) =~= seq!["--svc"@, "uninstall"@]);
    Operation { args, what: "удаление службы и драйвера".to_owned() }
}

/// What the log of the process says of an operation that begins.
pub fn reinvoke_line(op: &Operation) -> (r: String)
    ensures
        r@ == op.what@ + ": реинвок "@ + joined(texts(op.args@), " "@),
{
    cat3(op.what.as_str(), ": реинвок ", join(&op.args, " ").as_str())
}

// ── Waiting for the effect ──────────────────────────────────────────────────

/// What an operation is expected to bring about.
#[derive(Clone, Copy, Debug, PartialEq, Eq, Structural)]
pub struct Expectation {
    /// The bypass runs.
    pub running: bool,
    /// The service is gone.
    pub removed: bool,
}

/// What an operation is expected to bring about, by its second argument.
pub open spec fn expectation_of(args: Seq<Seq<char>>) -> Expectation {
    Expectation {
        running: args.len() > 1 && (args[1] == "install"@ || args[1] == "start"@),
        removed: args.len() > 1 && (args[1] == "remove"@ || args[1] == "stop"@ || args[1]
            == "uninstall"@),
    }
}

/// What an operation is expected to bring about.
pub fn expectation(args: &[String]) -> (r: Expectation)
    ensures
        r == expectation_of(texts(args@)),
{
    assert(texts(args@).len() == args@.len());
    if args.len() > 1 {
        let a = args[1].as_str();
        assert(texts(args@)[1] == a@);
        Expectation {
            running: same(a, "install") || same(a, "start"),
            removed: same(a, "remove") || same(a, "stop") || same(a, "uninstall"),
        }
    } else {
        Expectation { running: false, removed: false }
    }
}

/// How often the state is looked at after an operation.
pub const POLLS: u32 = 16;

/// One look at the state after an operation.
#[derive(Clone, Copy, Debug, PartialEq, Eq, Structural)]
pub struct Look {
    pub state: ServiceState,
    /// Whether the bypass really runs.
    pub authoritative: bool,
    /// Whether an engine is there.
    pub alive: bool,
}

/// Whether what was expected has come about.
pub open spec fn settled(exp: Expectation, look: Look) -> bool {
    ||| exp.running && look.authoritative
    ||| exp.removed && look.state is NotInstalled && !look.alive
}

/// Whether the state is looked at once more after so many looks: not after what was
/// expected has come about, and not without end.
pub open spec fn polls_again(exp: Expectation, looks: int, last: Look) -> bool {
    looks < POLLS && !settled(exp, last)
}

/// Whether the state is looked at once more after so many looks.
pub fn poll_again(exp: Expectation, looks: u32, last: Look) -> (r: bool)
    ensures
        r == polls_again(exp, looks as int, last),
{
    let gone = match last.state {
        ServiceState::NotInstalled => true,
        _ => false,
    };
    looks < POLLS && !(exp.running && last.authoritative) && !(exp.removed && gone && !last.alive)
}

/// Whether these are the looks that are taken after an operation: each but the last asks
/// for another one, and the last does not.
pub open spec fn all_looks(exp: Expectation, looks: Seq<Look>) -> bool {
    &&& looks.len() > 0
    &&& forall|k: int|
        0 <= k < looks.len() - 1 ==> polls_again(exp, k + 1, #[trigger] looks[k])
    &&& !polls_again(exp, looks.len() as int, looks.last())
}

/// How an elevated run ended: its code, or why there is none.
pub type Ended = Result<i32, String>;

/// How an elevated run ended, as a mathematical value.
pub open spec fn ended_view(r: Ended) -> Result<i32, Seq<char>> {
    match r {
        Ok(c) => Ok(c),
        Err(e) => Err(e@),
    }
}

/// Whether an operation that ended so failed although it reported success.
pub open spec fn failed_silently(
    end: Result<i32, Seq<char>>,
    exp: Expectation,
    authoritative: bool,
) -> bool {
    end == Ok::<i32, Seq<char>>(0) && exp.running && !authoritative
}

/// Whether an operation failed although it reported success: the bypass was to run and
/// does not.
pub fn silently_failed(code: &Ended, exp: Expectation, authoritative: bool) -> (r: bool)
    ensures
        r == (ended_view(*code) == Ok::<i32, Seq<char>>(0) && exp.running && !authoritative),
        r == failed_silently(ended_view(*code), exp, authoritative),
{
    let fine = match code {
        Ok(c) => *c == 0,
        Err(_) => false,
    };
    fine && exp.running && !authoritative
}

/// What the log says of such a failure.
pub fn failure_message(state: ServiceState, pid: Option<u32>) -> (r: String)
    ensures
        r@ == "обход НЕ поднялся: служба="@ + state_word(state) + ", движок_pid="@ + pid_word(pid)
            + ". Подробности в логах."@,
{
    let mut s = cat3("обход НЕ поднялся: служба=", state_text(state), ", движок_pid=");
    s.append(pid_text(pid).as_str());
    s.append(". Подробности в логах.");
    s
}

/// An operation that was to start the bypass is believed to have failed only after every
/// look has failed: the looks end, and where the last of them does not show a running
/// bypass, none did, and the state was looked at as often as it may be.
pub proof fn failure_is_never_hasty(exp: Expectation, looks: Seq<Look>)
    requires
        all_looks(exp, looks),
    ensures
        looks.len() <= POLLS,
        exp.running && !exp.removed && !looks.last().authoritative ==> looks.len() == POLLS
            && forall|k: int| 0 <= k < looks.len() ==> !(#[trigger] looks[k]).authoritative,
        exp.running && !exp.removed && looks.last().authoritative ==> forall|k: int|
            0 <= k < looks.len() - 1 ==> !(#[trigger] looks[k]).authoritative,
{
    if looks.len() > POLLS {
        assert(polls_again(exp, looks.len() - 1, looks[looks.len() - 2]));
    }
}

// ── What is said in the end ─────────────────────────────────────────────────

/// The lines on the end of an operation: done; or the error and what the elevated run has
/// left in its log; or why it did not run.
pub open spec fn end_lines(
    what: Seq<char>,
    code: Result<i32, Seq<char>>,
    log: Seq<Seq<char>>,
) -> Seq<Seq<char>> {
    match code {
        Ok(c) => if c == 0 {
            seq![what + ": готово"@]
        } else {
            seq![what + ": ошибка (код "@ + signed(c as int) + ")"@] + log
        },
        Err(e) => seq![what + ": "@ + e],
    }
}

/// The lines on the end of an operation.
pub fn operation_lines(what: &str, code: &Ended, log: &[String]) -> (r: Vec<String>)
    ensures
        texts(r@) == end_lines(what@, ended_view(*code), texts(log@)),
{
    let mut v: Vec<String> = Vec::new();
    match code {
        Ok(c) => {
            if *c == 0 {
                v.push(cat(what, ": готово"));
            } else {
                let mut s = cat3(what, ": ошибка (код ", signed_text(*c).as_str());
                s.append(")");
                v.push(s);
                let ghost first = texts(v@);
                let mut more = copy_strings(log);
                let ghost rest = texts(more@);
                v.append(&mut more);
                assert(texts(v@) =~= first + rest);
                assert(first =~= seq![s@]);
            }
        },
        Err(e) => {
            v.push(cat3(what, ": ", e.as_str()));
        },
    }
    assert(texts(v@) =~= end_lines(what@, ended_view(*code), texts(log@)));
    v
}

/// Each line with words before it.
pub open spec fn prefixed(words: Seq<char>, ls: Seq<Seq<char>>) -> Seq<Seq<char>> {
    Seq::new(ls.len(), |i: int| words + ls[i])
}

/// Each line with words before it.
pub fn prefix_lines(words: &str, ls: &[String]) -> (r: Vec<String>)
    ensures
        texts(r@) == prefixed(words@, texts(ls@)),
{
    let mut v: Vec<String> = Vec::new();
    let mut i: usize = 0;
    while i < ls.len()
        invariant
            i <= ls@.len(),
            v@.len() == i,
            forall|k: int| 0 <= k < i ==> (#[trigger] v@[k])@ == words@ + ls@[k]@,
        decreases ls@.len() - i,
    {
        v.push(cat(words, ls[i].as_str()));
        i += 1;
    }
    assert(texts(v@) =~= prefixed(words@, texts(ls@)));
    v
}

/// The lines on the end of a selection.
pub open spec fn selection_lines(code: Result<i32, Seq<char>>, log: Seq<Seq<char>>) -> Seq<
    Seq<char>,
> {
    match code {
        Ok(c) => if c == 0 {
            seq!["автоподбор: победитель установлен"@]
        } else if c == 2 {
            seq!["автоподбор: отменён"@]
        } else if c == 3 {
            seq!["автоподбор: рабочая стратегия не найдена"@]
        } else {
            seq!["автоподбор: ошибка (код "@ + signed(c as int) + ")"@] + prefixed(
                "автоподбор: "@,
                log,
            )
        },
        Err(e) => seq!["автоподбор: "@ + e],
    }
}

/// The lines on the end of a selection, and whether its winner is to be remembered.
pub fn selection_end(code: &Ended, log: &[String]) -> (r: (Vec<String>, bool))
    ensures
        texts(r.0@) == selection_lines(ended_view(*code), texts(log@)),
        r.1 == (ended_view(*code) == Ok::<i32, Seq<char>>(0)),
{
    let mut v: Vec<String> = Vec::new();
    let mut won = false;
    match code {
        Ok(c) => {
            if *c == 0 {
                v.push("автоподбор: победитель установлен".to_owned());
                won = true;
            } else if *c == 2 {
                v.push("автоподбор: отменён".to_owned());
            } else if *c == 3 {
                v.push("автоподбор: рабочая стратегия не найдена".to_owned());
            } else {
                v.push(cat3("автоподбор: ошибка (код ", signed_text(*c).as_str(), ")"));
                let ghost first = texts(v@);
                let mut more = prefix_lines("автоподбор: ", log);
                let ghost rest = texts(more@);
                v.append(&mut more);
                assert(texts(v@) =~= first + rest);
                assert(first =~= seq!["автоподбор: ошибка (код "@ + signed(*c as int) + ")"@]);
            }
        },
        Err(e) => {
            v.push(cat("автоподбор: ", e.as_str()));
        },
    }
    assert(texts(v@) =~= selection_lines(ended_view(*code), texts(log@)));
    (v, won)
}

/// What an elevated run leaves for the interface.
#[derive(Debug)]
pub struct OpResult {
    pub op: String,
    pub ok: bool,
    pub service_state: String,
    pub winws_pid: Option<u32>,
    pub error: Option<String>,
}

/// What an elevated run leaves for the interface: the operation, how it ended, and the
/// state in which it left the service and the engine.
pub fn write_op_result(
    op: &str,
    ok: bool,
    error: Option<String>,
    state: ServiceState,
    pid: Option<u32>,
) -> (r: OpResult)
    ensures
        r.op@ == op@,
        r.ok == ok,
        r.service_state@ == state_word(state),
        r.winws_pid == pid,
        opt_text(r.error) == opt_text(error),
{
    OpResult {
        op: op.to_owned(),
        ok,
        service_state: state_text(state).to_owned(),
        winws_pid: pid,
        error,
    }
}

/// What the log says of that.
pub fn op_result_line(r: &OpResult) -> (s: String)
    ensures
        s@ == "записан итог: op="@ + r.op@ + " ok="@ + bool_word(r.ok) + " service="@
            + r.service_state@ + " winws_pid="@ + pid_word(r.winws_pid),
{
    let mut s = cat3("записан итог: op=", r.op.as_str(), " ok=");
    s.append(bool_text(r.ok));
    s.append(" service=");
    s.append(r.service_state.as_str());
    s.append(" winws_pid=");
    s.append(pid_text(r.winws_pid).as_str());
    s
}

/// The end of an elevated change of the service: the exit code, the line for the log, with
/// its severity, and the error for the interface, if there is one.
#[derive(Debug)]
pub struct CommandEnd {
    pub code: i32,
    pub level: Level,
    pub line: String,
    pub error: Option<String>,
}

/// The end of an elevated change of the service, by what became of it.
pub fn finish_command(action: &str, result: Result<(), String>) -> (r: CommandEnd)
    ensures
        result is Ok ==> r.code == 0 && r.level == Level::Info && r.line@ == action@ + ": ok"@
            && r.error is None,
        result matches Err(e) ==> r.code == 1 && r.level == Level::Error && r.line@ == action@
            + ": "@ + e@ && opt_text(r.error) == Some(e@),
{
    match result {
        Ok(()) => CommandEnd {
            code: 0,
            level: Level::Info,
            line: cat(action, ": ok"),
            error: None,
        },
        Err(e) => CommandEnd {
            code: 1,
            level: Level::Error,
            line: cat3(action, ": ", e.as_str()),
            error: Some(e),
        },
    }
}

/// The end of the installation of a winner: the exit code, the line for the log, with its
/// severity, and the error for the interface, if there is one.
pub fn install_winner(name: &str, result: Result<(), String>) -> (r: CommandEnd)
    ensures
        result is Ok ==> r.code == 0 && r.level == Level::Info && r.line@
            == "победитель установлен: "@ + name@ && r.error is None,
        result matches Err(e) ==> r.code == 1 && r.level == Level::Error && r.line@
            == "установка победителя "@ + name@ + ": "@ + e@ && opt_text(r.error) == Some(
            "установка победителя: "@ + e@,
        ),
{
    match result {
        Ok(()) => CommandEnd {
            code: 0,
            level: Level::Info,
            line: cat("победитель установлен: ", name),
            error: None,
        },
        Err(e) => {
            let mut line = cat3("установка победителя ", name, ": ");
            line.append(e.as_str());
            CommandEnd {
                code: 1,
                level: Level::Error,
                line,
                error: Some(cat("установка победителя: ", e.as_str())),
            }
        },
    }
}

// ── What holds of all operations ────────────────────────────────────────────

/// The state is looked at until what was expected has come about, and sixteen times at
/// most: a start is over as soon as the bypass really runs, and not because a service or an
/// engine is there; a removal only when both the service and the engine are gone.
pub proof fn looks_end_with_the_effect(exp: Expectation, looks: int, last: Look)
    ensures
        looks >= 16 ==> !polls_again(exp, looks, last),
        looks < 16 && exp.running && !exp.removed ==> polls_again(exp, looks, last)
            == !last.authoritative,
        looks < 16 && exp.removed && !exp.running ==> polls_again(exp, looks, last) == (!(
        last.state is NotInstalled) || last.alive),
        looks < 16 && !exp.running && !exp.removed ==> polls_again(exp, looks, last),
{
}

/// The lines on the end of an operation tell what became of it: success takes one line and
/// shows no log, an error shows its code and the whole log behind it, and a run that did
/// not take place shows why. Each names the operation first.
pub proof fn the_end_of_an_operation_is_told(
    what: Seq<char>,
    code: Result<i32, Seq<char>>,
    log: Seq<Seq<char>>,
)
    ensures
        end_lines(what, code, log).len() > 0,
        begins(end_lines(what, code, log)[0], what + ": "@),
        code == Ok::<i32, Seq<char>>(0) ==> end_lines(what, code, log).len() == 1,
        code matches Ok(c) && c != 0 ==> end_lines(what, code, log).skip(1) == log && contains(
            end_lines(what, code, log)[0],
            signed(code->Ok_0 as int),
        ),
        code matches Err(e) ==> end_lines(what, code, log) == seq![what + ": "@ + e],
{
    reveal_strlit(": ");
    reveal_strlit(": готово");
    reveal_strlit(": ошибка (код ");
    let r = end_lines(what, code, log);
    let n = what.len() as int + 2;
    assert(r[0].take(n) =~= what + ": "@);
    match code {
        Ok(c) => {
            if c != 0 {
                assert(r.skip(1) =~= log);
                let front = what + ": ошибка (код "@;
                let k = front.len() as int;
                let d = signed(c as int);
                assert(r[0].subrange(k, k + d.len()) =~= d);
                assert(at(r[0], k, d));
            }
        },
        Err(e) => {},
    }
}

/// The lines on the end of a selection tell success, cancellation and a search without a
/// result apart; only another code is an error, which shows the code and every line of the
/// log.
pub proof fn the_end_of_a_selection_is_told(code: i32, log: Seq<Seq<char>>, i: int)
    ensures
        selection_lines(Ok(0), log) == seq!["автоподбор: победитель установлен"@],
        selection_lines(Ok(2), log) == seq!["автоподбор: отменён"@],
        selection_lines(Ok(3), log) == seq!["автоподбор: рабочая стратегия не найдена"@],
        code != 0 && code != 2 && code != 3 ==> {
            let r = selection_lines(Ok(code), log);
            &&& r.len() == log.len() + 1
            &&& contains(r[0], signed(code as int))
            &&& 0 <= i < log.len() ==> r[i + 1] == "автоподбор: "@ + log[i]
        },
{
    if code != 0 && code != 2 && code != 3 {
        let r = selection_lines(Ok(code), log);
        let k = "автоподбор: ошибка (код "@.len() as int;
        let d = signed(code as int);
        assert(r[0].subrange(k, k + d.len()) =~= d);
        assert(at(r[0], k, d));
    }
}

/// A silent failure is that of an installation: one that reports success and leaves no
/// running bypass. An installation that says itself that it failed, one after which the
/// bypass runs, and a removal never count.
pub proof fn only_an_installation_fails_silently(
    name: Seq<char>,
    gf: bool,
    end: Result<i32, Seq<char>>,
    authoritative: bool,
)
    ensures
        ({
            let exp = expectation_of(installing(name, gf).args);
            &&& failed_silently(Ok(0), exp, authoritative) <==> !authoritative
            &&& end != Ok::<i32, Seq<char>>(0) ==> !failed_silently(end, exp, authoritative)
        }),
        !failed_silently(end, expectation_of(removing().args), authoritative),
        !failed_silently(end, expectation_of(uninstalling().args), authoritative),
{
    reveal_strlit("install");
    reveal_strlit("start");
    reveal_strlit("remove");
    reveal_strlit("uninstall");
    assert("install"@.len() == 7 && "start"@.len() == 5 && "remove"@.len() == 6
        && "uninstall"@.len() == 9);
}

} // verus!
