//! Scripts of outside commands.
//!
//! A script is a list of commands together with what follows each of them: after a
//! success and after a failure the script goes on further down, or it stops there with
//! the error of the command. A driver runs the commands one by one and asks `advance`
//! what comes next. No step leads back, so every script ends.
use vstd::prelude::*;

use crate::text::{cat3, copy_strings, join, same, signed_text, trim};

verus! {

use crate::text::{joined, signed, texts, trimmed};

/// A command: a program and its arguments.
#[derive(Debug)]
pub struct Invocation {
    pub program: String,
    pub args: Vec<String>,
}

/// A command as a mathematical value.
#[verifier::ext_equal]
pub struct InvocationView {
    pub program: Seq<char>,
    pub args: Seq<Seq<char>>,
}

impl View for Invocation {
    type V = InvocationView;

    open spec fn view(&self) -> InvocationView {
        InvocationView { program: self.program@, args: texts(self.args@) }
    }
}

/// What follows a command that failed.
#[derive(Clone, Copy, Debug, PartialEq, Eq, Structural)]
pub enum OnFail {
    /// Go on, this many steps being left out.
    Skip(usize),
    /// Go on in the same way, with a warning.
    Warn(usize),
    /// Stop with the error of the command.
    Abort,
}

/// One command of a script.
#[derive(Debug)]
pub struct Step {
    pub command: Invocation,
    /// The command only asks a question: its outcome is not worth a log line.
    pub quiet: bool,
    /// How many steps are left out after a success.
    pub on_ok: usize,
    pub on_fail: OnFail,
}

/// One command of a script as a mathematical value.
#[verifier::ext_equal]
pub struct StepView {
    pub command: InvocationView,
    pub quiet: bool,
    pub on_ok: usize,
    pub on_fail: OnFail,
}

impl View for Step {
    type V = StepView;

    open spec fn view(&self) -> StepView {
        StepView {
            command: self.command@,
            quiet: self.quiet,
            on_ok: self.on_ok,
            on_fail: self.on_fail,
        }
    }
}

/// A script as a mathematical value.
pub open spec fn script(steps: Seq<Step>) -> Seq<StepView> {
    Seq::new(steps.len(), |i: int| steps[i]@)
}

/// How a script goes on.
#[derive(Clone, Copy, Debug, PartialEq, Eq, Structural)]
pub enum Next {
    /// Run the command at this position.
    Run(usize),
    /// The script is over.
    Done,
    /// The script stops with the error of the command that has just run.
    Failed,
}

// ── Running a script ────────────────────────────────────────────────────────

/// The position behind the step at `i`, `skip` steps being left out. Behind the last
/// step every position is the end.
pub open spec fn target(len: nat, i: int, skip: usize) -> int {
    if i + 1 + skip <= len {
        i + 1 + skip
    } else {
        len as int
    }
}

/// The position at which the script goes on; nothing where it stops with an error.
pub open spec fn follow(s: Seq<StepView>, i: int, ok: bool) -> Option<int> {
    if ok {
        Some(target(s.len(), i, s[i].on_ok))
    } else {
        match s[i].on_fail {
            OnFail::Skip(k) => Some(target(s.len(), i, k)),
            OnFail::Warn(k) => Some(target(s.len(), i, k)),
            OnFail::Abort => None,
        }
    }
}

/// The positions of the commands that run from position `i` on, where `answers` says
/// which commands succeed.
pub open spec fn trace(s: Seq<StepView>, i: int, answers: spec_fn(int) -> bool) -> Seq<int>
    decreases s.len() - i,
{
    if i < 0 || i >= s.len() {
        Seq::empty()
    } else {
        match follow(s, i, answers(i)) {
            Some(j) => seq![i] + trace(s, j, answers),
            None => seq![i],
        }
    }
}

/// Whether the script, from position `i` on, comes to its end without an error.
pub open spec fn succeeds(s: Seq<StepView>, i: int, answers: spec_fn(int) -> bool) -> bool
    decreases s.len() - i,
{
    if i < 0 || i >= s.len() {
        true
    } else {
        match follow(s, i, answers(i)) {
            Some(j) => succeeds(s, j, answers),
            None => false,
        }
    }
}

/// What `Next` says of the position at which a script goes on.
pub open spec fn next_at(len: nat, j: Option<int>) -> Next {
    match j {
        None => Next::Failed,
        Some(p) => if p < len {
            Next::Run(p as usize)
        } else {
            Next::Done
        },
    }
}

/// What the script begins with.
pub fn begin(steps: &Vec<Step>) -> (r: Next)
    ensures
        r == next_at(script(steps@).len(), Some(0)),
{
    if steps.len() > 0 {
        Next::Run(0)
    } else {
        Next::Done
    }
}

/// What comes after the command at `i`, which succeeded (`ok`) or failed.
pub fn advance(steps: &Vec<Step>, i: usize, ok: bool) -> (r: Next)
    requires
        i < steps@.len(),
    ensures
        r == next_at(script(steps@).len(), follow(script(steps@), i as int, ok)),
{
    let skip: usize = if ok {
        steps[i].on_ok
    } else {
        match steps[i].on_fail {
            OnFail::Skip(k) => k,
            OnFail::Warn(k) => k,
            OnFail::Abort => {
                return Next::Failed;
            },
        }
    };
    let rest: usize = steps.len() - i - 1;
    if skip < rest {
        Next::Run(i + 1 + skip)
    } else {
        Next::Done
    }
}

/// A script only goes forward: what runs after a command stands behind it, so every
/// command runs at most once and every script ends.
pub proof fn script_only_goes_forward(s: Seq<StepView>, i: int, ok: bool)
    requires
        0 <= i < s.len(),
    ensures
        follow(s, i, ok) matches Some(j) ==> i < j <= s.len(),
{
}

/// The positions of the commands that run are ascending.
pub proof fn trace_is_ascending(s: Seq<StepView>, i: int, answers: spec_fn(int) -> bool)
    requires
        0 <= i,
    ensures
        forall|a: int| 0 <= a < trace(s, i, answers).len() ==> i <= #[trigger] trace(
            s,
            i,
            answers,
        )[a] < s.len(),
        forall|a: int, b: int|
            0 <= a < b < trace(s, i, answers).len() ==> #[trigger] trace(s, i, answers)[a]
                < #[trigger] trace(s, i, answers)[b],
    decreases s.len() - i,
{
    if i < s.len() {
        match follow(s, i, answers(i)) {
            Some(j) => {
                trace_is_ascending(s, j, answers);
                let rest = trace(s, j, answers);
                let t = trace(s, i, answers);
                assert forall|a: int| 0 <= a < t.len() implies i <= #[trigger] t[a] < s.len() by {
                    if a > 0 {
                        assert(t[a] == rest[a - 1]);
                    }
                }
                assert forall|a: int, b: int| 0 <= a < b < t.len() implies #[trigger] t[a]
                    < #[trigger] t[b] by {
                    assert(t[b] == rest[b - 1]);
                    if a > 0 {
                        assert(t[a] == rest[a - 1]);
                    }
                }
            },
            None => {},
        }
    }
}

/// A script succeeds exactly when no command that must succeed has run and failed.
pub proof fn success_means_no_abort(s: Seq<StepView>, i: int, answers: spec_fn(int) -> bool)
    requires
        0 <= i,
    ensures
        succeeds(s, i, answers) <==> forall|a: int|
            0 <= a < trace(s, i, answers).len() ==> {
                let k = #[trigger] trace(s, i, answers)[a];
                answers(k) || s[k].on_fail != OnFail::Abort
            },
    decreases s.len() - i,
{
    if i < s.len() {
        let t = trace(s, i, answers);
        match follow(s, i, answers(i)) {
            Some(j) => {
                success_means_no_abort(s, j, answers);
                let rest = trace(s, j, answers);
                assert(t[0] == i);
                assert forall|a: int| 0 <= a < rest.len() implies #[trigger] rest[a] == t[a + 1] by {}
                if succeeds(s, j, answers) {
                    assert forall|a: int| 0 <= a < t.len() implies {
                        let k = #[trigger] t[a];
                        answers(k) || s[k].on_fail != OnFail::Abort
                    } by {
                        if a > 0 {
                            assert(t[a] == rest[a - 1]);
                        }
                    }
                } else {
                    let a = choose|a: int|
                        0 <= a < rest.len() && !({
                            let k = #[trigger] rest[a];
                            answers(k) || s[k].on_fail != OnFail::Abort
                        });
                    assert(t[a + 1] == rest[a]);
                }
            },
            None => {
                assert(t[0] == i);
            },
        }
    }
}

// ── Building scripts ────────────────────────────────────────────────────────

/// A command that must succeed.
pub open spec fn must(program: Seq<char>, args: Seq<Seq<char>>) -> StepView {
    StepView {
        command: InvocationView { program, args },
        quiet: false,
        on_ok: 0,
        on_fail: OnFail::Abort,
    }
}

/// A command whose failure does not matter.
pub open spec fn may(program: Seq<char>, args: Seq<Seq<char>>) -> StepView {
    StepView {
        command: InvocationView { program, args },
        quiet: false,
        on_ok: 0,
        on_fail: OnFail::Skip(0),
    }
}

/// A command that must succeed.
pub fn must_run(program: &str, args: Vec<String>) -> (r: Step)
    ensures
        r@ == must(program@, texts(args@)),
{
    Step {
        command: Invocation { program: program.to_owned(), args },
        quiet: false,
        on_ok: 0,
        on_fail: OnFail::Abort,
    }
}

/// A command whose failure does not matter.
pub fn may_run(program: &str, args: Vec<String>) -> (r: Step)
    ensures
        r@ == may(program@, texts(args@)),
{
    Step {
        command: Invocation { program: program.to_owned(), args },
        quiet: false,
        on_ok: 0,
        on_fail: OnFail::Skip(0),
    }
}

/// A command that only asks, or whose outcome is of no interest at all.
pub open spec fn quietly(program: Seq<char>, args: Seq<Seq<char>>) -> StepView {
    StepView {
        command: InvocationView { program, args },
        quiet: true,
        on_ok: 0,
        on_fail: OnFail::Skip(0),
    }
}

/// A command whose outcome is of no interest at all.
pub fn run_quietly(program: &str, args: Vec<String>) -> (r: Step)
    ensures
        r@ == quietly(program@, texts(args@)),
{
    Step {
        command: Invocation { program: program.to_owned(), args },
        quiet: true,
        on_ok: 0,
        on_fail: OnFail::Skip(0),
    }
}

/// `s` as a part of a larger script that goes on after it in any case: a command that
/// would stop the script with an error leaves out the rest of `s` instead (`loud`: with a
/// warning).
pub open spec fn excused(s: Seq<StepView>, loud: bool) -> Seq<StepView> {
    Seq::new(
        s.len(),
        |i: int|
            match s[i].on_fail {
                OnFail::Abort => StepView {
                    on_fail: if loud {
                        OnFail::Warn((s.len() - i - 1) as usize)
                    } else {
                        OnFail::Skip((s.len() - i - 1) as usize)
                    },
                    ..s[i]
                },
                _ => s[i],
            },
    )
}

/// Makes every error of `steps` leave out the rest of them (`loud`: with a warning).
pub fn excuse(steps: &mut Vec<Step>, loud: bool)
    ensures
        script(final(steps)@) == excused(script(old(steps)@), loud),
{
    let ghost before = script(steps@);
    let n: usize = steps.len();
    let mut i: usize = 0;
    while i < n
        invariant
            i <= n,
            n == before.len(),
            steps@.len() == n,
            forall|k: int| 0 <= k < i ==> (#[trigger] steps@[k])@ == excused(before, loud)[k],
            forall|k: int| i <= k < n ==> (#[trigger] steps@[k])@ == before[k],
        decreases n - i,
    {
        let abort = match steps[i].on_fail {
            OnFail::Abort => true,
            _ => false,
        };
        assert(steps@[i as int]@ == before[i as int]);
        if abort {
            let step = Step {
                command: Invocation {
                    program: steps[i].command.program.clone(),
                    args: copy_strings(&steps[i].command.args),
                },
                quiet: steps[i].quiet,
                on_ok: steps[i].on_ok,
                on_fail: if loud {
                    OnFail::Warn(n - i - 1)
                } else {
                    OnFail::Skip(n - i - 1)
                },
            };
            steps.set(i, step);
        }
        i += 1;
    }
    assert(script(steps@) =~= excused(before, loud));
}

/// `rest` behind `first`.
pub fn chain(first: Vec<Step>, rest: Vec<Step>) -> (r: Vec<Step>)
    ensures
        script(r@) == script(first@) + script(rest@),
{
    let mut all = first;
    let mut tail = rest;
    all.append(&mut tail);
    assert(script(all@) =~= script(first@) + script(rest@));
    all
}

// ── Messages ────────────────────────────────────────────────────────────────

/// A command as it would be typed.
pub open spec fn command_line(c: InvocationView) -> Seq<char> {
    c.program + " "@ + joined(c.args, " "@)
}

/// A command as it would be typed.
pub fn command_text(c: &Invocation) -> (r: String)
    ensures
        r@ == command_line(c@),
{
    let mut s = c.program.clone();
    s.append(" ");
    s.append(join(&c.args, " ").as_str());
    s
}

/// The error of a command that ran and failed, with what it printed.
pub fn failure_text(c: &Invocation, output: &str) -> (r: String)
    ensures
        r@ == command_line(c@) + ": "@ + trimmed(output@),
{
    let mut s = command_text(c);
    s.append(": ");
    s.append(trim(output));
    s
}

/// The error of a command that ran and failed, with its code and what it printed.
pub fn coded_failure_text(c: &Invocation, code: i32, output: &str) -> (r: String)
    ensures
        r@ == command_line(c@) + ": код="@ + signed(code as int) + " "@ + trimmed(output@),
{
    let mut s = command_text(c);
    s.append(": код=");
    s.append(signed_text(code).as_str());
    s.append(" ");
    s.append(trim(output));
    s
}

/// Whether a program is a manager of services: its errors tell the code as well.
pub open spec fn is_manager(program: Seq<char>) -> bool {
    program == "systemctl"@ || program == "sc"@
}

/// The error of a command that ran and failed. A manager of services tells its code, which
/// is -1 where a signal ended it; other programs tell only what they printed.
pub fn failed_run_text(c: &Invocation, code: Option<i32>, output: &str) -> (r: String)
    ensures
        r@ == (if is_manager(c@.program) {
            command_line(c@) + ": код="@ + signed(
                match code {
                    Some(n) => n as int,
                    None => -1,
                },
            ) + " "@ + trimmed(output@)
        } else {
            command_line(c@) + ": "@ + trimmed(output@)
        }),
{
    if same(c.program.as_str(), "systemctl") || same(c.program.as_str(), "sc") {
        let n: i32 = match code {
            Some(n) => n,
            None => -1,
        };
        coded_failure_text(c, n, output)
    } else {
        failure_text(c, output)
    }
}

/// The error of a program that could not be started. For a manager of services it tells
/// the whole command.
pub fn failed_start_text(c: &Invocation, error: &str) -> (r: String)
    ensures
        r@ == (if is_manager(c@.program) {
            command_line(c@)
        } else {
            c@.program
        }) + ": "@ + error@,
{
    if same(c.program.as_str(), "systemctl") || same(c.program.as_str(), "sc") {
        cat3(command_text(c).as_str(), ": ", error)
    } else {
        missing_text(c, error)
    }
}

/// The error of a program that could not be started, by its name.
pub fn missing_text(c: &Invocation, error: &str) -> (r: String)
    ensures
        r@ == c@.program + ": "@ + error@,
{
    let mut s = c.program.clone();
    s.append(": ");
    s.append(error);
    s
}

// ── What holds of all scripts ───────────────────────────────────────────────

/// A script goes on with the next command unless the command says otherwise: after a success
/// as many commands are left out as it says, after a failure as many as it says for that,
/// with or without a warning, and a command that must succeed stops the script. What would
/// lead beyond the last command leads to the end.
pub proof fn commands_are_left_out_as_said(s: Seq<StepView>, i: int, k: usize)
    requires
        0 <= i < s.len(),
    ensures
        s[i].on_ok == 0 ==> follow(s, i, true) == Some(i + 1),
        s[i].on_ok == k && i + 1 + k <= s.len() ==> follow(s, i, true) == Some(i + 1 + k),
        s[i].on_ok == k && i + 1 + k > s.len() ==> follow(s, i, true) == Some(s.len() as int),
        s[i].on_fail == OnFail::Abort ==> follow(s, i, false) is None,
        (s[i].on_fail == OnFail::Skip(k) || s[i].on_fail == OnFail::Warn(k)) && i + 1 + k <= s.len()
            ==> follow(s, i, false) == Some(i + 1 + k),
        (s[i].on_fail == OnFail::Skip(k) || s[i].on_fail == OnFail::Warn(k)) && i + 1 + k > s.len()
            ==> follow(s, i, false) == Some(s.len() as int),
{
}

/// Commands of which every one succeeds and none is left out all run, in their order.
pub proof fn a_plain_script_runs_whole(s: Seq<StepView>, i: int, answers: spec_fn(int) -> bool)
    requires
        0 <= i <= s.len(),
        forall|k: int| 0 <= k < s.len() ==> (#[trigger] s[k]).on_ok == 0,
        forall|k: int| #[trigger] answers(k),
    ensures
        trace(s, i, answers) == Seq::new((s.len() - i) as nat, |k: int| i + k),
        succeeds(s, i, answers),
    decreases s.len() - i,
{
    let all = Seq::new((s.len() - i) as nat, |k: int| i + k);
    if i < s.len() {
        assert(answers(i));
        a_plain_script_runs_whole(s, i + 1, answers);
        assert(trace(s, i, answers) =~= all);
    } else {
        assert(trace(s, i, answers) =~= all);
    }
}

/// A part that is excused never stops the script it belongs to: it has the same commands,
/// whatever they answer it comes to its end, and a command that had to succeed leaves out
/// all the rest of the part when it fails. Where every command succeeds nothing is left out
/// that was not left out before.
pub proof fn an_excused_part_never_stops_the_script(
    s: Seq<StepView>,
    loud: bool,
    i: int,
    answers: spec_fn(int) -> bool,
)
    requires
        s.len() <= usize::MAX,
        0 <= i <= s.len(),
    ensures
        excused(s, loud).len() == s.len(),
        succeeds(excused(s, loud), i, answers),
        i < s.len() ==> excused(s, loud)[i].command == s[i].command,
        i < s.len() ==> follow(excused(s, loud), i, true) == follow(s, i, true),
        i < s.len() && s[i].on_fail == OnFail::Abort ==> follow(excused(s, loud), i, false) == Some(
            s.len() as int,
        ),
        i < s.len() && s[i].on_fail == OnFail::Abort ==> (excused(s, loud)[i].on_fail is Warn
            <==> loud),
        i < s.len() && s[i].on_fail != OnFail::Abort ==> excused(s, loud)[i] == s[i],
    decreases s.len() - i,
{
    let e = excused(s, loud);
    if i < s.len() {
        match follow(e, i, answers(i)) {
            Some(j) => {
                an_excused_part_never_stops_the_script(s, loud, j, answers);
            },
            None => {},
        }
    }
}

} // verus!
