//! The bypass service of Windows: `winws` itself is the program of the service `zapret`.
use vstd::prelude::*;

use crate::platform::{bool_text, ServiceState, TriCheck};
use crate::script::{chain, excuse, may_run, must_run, run_quietly, Invocation, Step};
use crate::text::{
    ascii_lowered, cat3, decimal_text, lines, occurs, parse_u32, position, replace, split_on,
    strings, tail, to_uppercase, trim, trim_either,
};

verus! {

use crate::platform::bool_word;
use crate::script::{excused, may, must, quietly, script, InvocationView, StepView};
use super::elevate::{is_piece, pieces_come_back};
use crate::bat::{arguments, in_quotes};
use crate::text::{
    at, capitals, contains, decimal, decimal_reads_back, either, find, find_is_least, is_digit,
    is_white, joined, lemma_decimal, lemma_find_at, lines_of, lowered, opt_text, parsed, replaced,
    replacing_what_is_absent, split, splitting_takes_pieces_off, texts, trim_by, trimmed,
    trimming_takes_off_the_ends, whites,
};

/// The name of the service.
pub const SERVICE_NAME: &'static str = "zapret";

/// Where the registry keeps the service.
pub const SERVICE_KEY: &'static str = "HKLM\\System\\CurrentControlSet\\Services\\zapret";

/// The name under which the registry keeps the strategy.
pub const STRATEGY_VALUE: &'static str = "zapret-discord-youtube";

// ── Reading ─────────────────────────────────────────────────────────────────

/// The state in what `sc query` has printed, in capital letters.
pub open spec fn state_in(t: Seq<char>) -> ServiceState {
    if contains(t, "RUNNING"@) {
        ServiceState::Running
    } else if contains(t, "STOPPED"@) || contains(t, "_PENDING"@) {
        ServiceState::Stopped
    } else if contains(t, "1060"@) || contains(t, "DOES NOT EXIST"@) {
        ServiceState::NotInstalled
    } else {
        ServiceState::Unknown
    }
}

/// The state in what `sc query` has printed, in capital letters.
pub fn query_capitals(t: &str) -> (r: ServiceState)
    ensures
        r == state_in(t@),
{
    if occurs(t, "RUNNING") {
        ServiceState::Running
    } else if occurs(t, "STOPPED") || occurs(t, "_PENDING") {
        ServiceState::Stopped
    } else if occurs(t, "1060") || occurs(t, "DOES NOT EXIST") {
        ServiceState::NotInstalled
    } else {
        ServiceState::Unknown
    }
}

/// The state of a service, from all that `sc query` has printed; unknown where it did not
/// run.
pub fn query(out: Option<&str>) -> (r: ServiceState)
    ensures
        r == (match out {
            Some(t) => state_in(capitals(t@)),
            None => ServiceState::Unknown,
        }),
{
    match out {
        Some(t) => query_capitals(to_uppercase(t).as_str()),
        None => ServiceState::Unknown,
    }
}

/// The process in a line of `tasklist`: its second field, or 0 where that is no number.
pub open spec fn pid_in(line: Seq<char>) -> nat {
    let fields = split(line, ',');
    let n = if fields.len() > 1 {
        parsed(trim_by(fields[1], either('"', ' ')), u32::MAX as nat)
    } else {
        None
    };
    match n {
        Some(p) => p,
        None => 0,
    }
}

/// The process in the first line of `tasklist` that names the engine.
pub open spec fn engine_pid(ls: Seq<Seq<char>>) -> Option<nat>
    decreases ls.len(),
{
    if ls.len() == 0 {
        None
    } else if contains(lowered(ls[0]), "winws.exe"@) {
        Some(pid_in(ls[0]))
    } else {
        engine_pid(ls.skip(1))
    }
}

fn line_pid(line: &str) -> (r: u32)
    ensures
        r == pid_in(line@),
{
    let fields = split_on(line, ',');
    assert(texts(fields@).len() == fields@.len());
    if fields.len() > 1 {
        assert(texts(fields@)[1] == fields@[1]@);
        match parse_u32(trim_either(fields[1].as_str(), '"', ' ')) {
            Some(p) => p,
            None => 0,
        }
    } else {
        0
    }
}

/// The process of the engine, from what `tasklist` has printed.
pub fn winws_alive(out: Option<&str>) -> (r: Option<u32>)
    ensures
        match r {
            Some(p) => out is Some && engine_pid(lines_of(out->0@)) == Some(p as nat),
            None => out is None || engine_pid(lines_of(out->0@)) is None,
        },
{
    match out {
        None => None,
        Some(text) => {
            let all = lines(text);
            let ghost ls = texts(all@);
            let mut i: usize = 0;
            assert(ls.skip(0) =~= ls);
            while i < all.len()
                invariant
                    i <= all@.len(),
                    ls == texts(all@),
                    ls == lines_of(text@),
                    out == Some(text),
                    engine_pid(ls) == engine_pid(ls.skip(i as int)),
                decreases all@.len() - i,
            {
                assert(ls.skip(i as int)[0] == all@[i as int]@);
                assert(ls.skip(i as int).skip(1) =~= ls.skip(i + 1));
                let small = ascii_lowered(all[i].as_str());
                if occurs(small.as_str(), "winws.exe") {
                    return Some(line_pid(all[i].as_str()));
                }
                i += 1;
            }
            None
        },
    }
}

/// The first value that is not empty behind `REG_SZ` in a line.
pub open spec fn reg_value(ls: Seq<Seq<char>>) -> Option<Seq<char>>
    decreases ls.len(),
{
    if ls.len() == 0 {
        None
    } else {
        match find(ls[0], "REG_SZ"@) {
            Some(p) => if trimmed(ls[0].skip(p + 6)).len() > 0 {
                Some(trimmed(ls[0].skip(p + 6)))
            } else {
                reg_value(ls.skip(1))
            },
            None => reg_value(ls.skip(1)),
        }
    }
}

/// The value in what `reg query` has printed. It may hold spaces.
pub fn parse_reg_sz(text: &str) -> (r: Option<String>)
    ensures
        opt_text(r) == reg_value(lines_of(text@)),
{
    let all = lines(text);
    let ghost ls = texts(all@);
    let mut i: usize = 0;
    proof {
        reveal_strlit("REG_SZ");
        assert(ls.skip(0) =~= ls);
    }
    while i < all.len()
        invariant
            i <= all@.len(),
            ls == texts(all@),
            ls == lines_of(text@),
            "REG_SZ"@.len() == 6,
            reg_value(ls) == reg_value(ls.skip(i as int)),
        decreases all@.len() - i,
    {
        assert(ls.skip(i as int)[0] == all@[i as int]@);
        assert(ls.skip(i as int).skip(1) =~= ls.skip(i + 1));
        let line = all[i].as_str();
        match position(line, "REG_SZ") {
            Some(pos) => {
                let val = trim(tail(line, pos + 6));
                if !val.is_empty() {
                    return Some(val.to_owned());
                }
            },
            None => {},
        }
        i += 1;
    }
    None
}

/// The command that asks for the strategy of the installed service.
pub fn strategy_query() -> (r: Invocation)
    ensures
        r@ == (InvocationView {
            program: "reg"@,
            args: seq!["query"@, SERVICE_KEY@, "/v"@, STRATEGY_VALUE@],
        }),
{
    let args = strings(&["query", SERVICE_KEY, "/v", STRATEGY_VALUE]);
    assert(texts(args@) =~= seq!["query"@, SERVICE_KEY@, "/v"@, STRATEGY_VALUE@]);
    Invocation { program: "reg".to_owned(), args }
}

/// The strategy with which the service is installed, from what that command has printed.
pub fn installed_strategy(out: Option<&str>) -> (r: Option<String>)
    ensures
        opt_text(r) == (match out {
            Some(t) => reg_value(lines_of(t@)),
            None => None,
        }),
{
    match out {
        Some(t) => parse_reg_sz(t),
        None => None,
    }
}

/// Whether the bypass really runs: the service is running and the engine is alive. Where
/// the two disagree, there is a warning.
pub fn authoritative_running(state: ServiceState, pid: Option<u32>) -> (r: TriCheck)
    ensures
        r.running == (state is Running && pid is Some),
        texts(r.warnings@) == (if (state is Running) != (pid is Some) {
            seq![
                "расхождение: служба RUNNING="@ + bool_word(state is Running) + ", winws жив="@
                    + bool_word(pid is Some),
            ]
        } else {
            Seq::empty()
        }),
{
    let svc = match state {
        ServiceState::Running => true,
        _ => false,
    };
    let alive = pid.is_some();
    let mut warnings: Vec<String> = Vec::new();
    if svc != alive {
        let mut s = cat3("расхождение: служба RUNNING=", bool_text(svc), ", winws жив=");
        s.append(bool_text(alive));
        warnings.push(s);
        assert(texts(warnings@) =~= seq![s@]);
    } else {
        assert(texts(warnings@) =~= Seq::<Seq<char>>::empty());
    }
    TriCheck { running: svc && alive, warnings }
}

// ── The command line of the service ─────────────────────────────────────────

/// An argument in the command line of the service: in quotation marks where it is empty or
/// holds a space or a quotation mark.
pub open spec fn bin_arg(a: Seq<char>) -> Seq<char> {
    if a.len() == 0 || contains(a, " "@) || contains(a, "\""@) {
        "\""@ + replaced(a, "\""@, "\\\""@) + "\""@
    } else {
        a
    }
}

/// The command line of the service.
pub open spec fn bin_path(exe: Seq<char>, args: Seq<Seq<char>>) -> Seq<char>
    decreases args.len(),
{
    if args.len() == 0 {
        "\""@ + exe + "\""@
    } else {
        bin_path(exe, args.drop_last()) + " "@ + bin_arg(args.last())
    }
}

/// The command line of the service: the program and its arguments.
pub fn build_bin_path(exe: &str, args: &[String]) -> (r: String)
    ensures
        r@ == bin_path(exe@, texts(args@)),
{
    let ghost all = texts(args@);
    let mut s = cat3("\"", exe, "\"");
    let mut i: usize = 0;
    proof {
        reveal_strlit("\"");
        assert(all.take(0) =~= Seq::<Seq<char>>::empty());
    }
    while i < args.len()
        invariant
            i <= args@.len(),
            all == texts(args@),
            "\""@.len() == 1,
            s@ == bin_path(exe@, all.take(i as int)),
        decreases args@.len() - i,
    {
        let ghost before = s@;
        proof {
            assert(all.take(i + 1).drop_last() =~= all.take(i as int));
            assert(all.take(i + 1).last() == args@[i as int]@);
        }
        let a = args[i].as_str();
        s.append(" ");
        if a.is_empty() || occurs(a, " ") || occurs(a, "\"") {
            let q = cat3("\"", replace(a, "\"", "\\\"").as_str(), "\"");
            s.append(q.as_str());
        } else {
            s.append(a);
        }
        i += 1;
    }
    assert(all.take(all.len() as int) =~= all);
    s
}

// ── Changing ────────────────────────────────────────────────────────────────

/// Removes the service: stops it, deletes it, and ends what is left of the engine.
pub open spec fn remove_script() -> Seq<StepView> {
    seq![
        quietly("net"@, seq!["stop"@, SERVICE_NAME@]),
        must("sc"@, seq!["delete"@, SERVICE_NAME@]),
        quietly("taskkill"@, seq!["/IM"@, "winws.exe"@, "/F"@]),
    ]
}

/// The script that removes the service.
pub fn remove() -> (r: Vec<Step>)
    ensures
        script(r@) == remove_script(),
{
    let a = strings(&["stop", SERVICE_NAME]);
    let b = strings(&["delete", SERVICE_NAME]);
    let c = strings(&["/IM", "winws.exe", "/F"]);
    assert(texts(a@) =~= seq!["stop"@, SERVICE_NAME@]);
    assert(texts(b@) =~= seq!["delete"@, SERVICE_NAME@]);
    assert(texts(c@) =~= seq!["/IM"@, "winws.exe"@, "/F"@]);
    let mut v: Vec<Step> = Vec::new();
    v.push(run_quietly("net", a));
    v.push(must_run("sc", b));
    v.push(run_quietly("taskkill", c));
    assert(script(v@) =~= remove_script());
    v
}

/// Unloads the driver, so that its files can be replaced. The engine loads it again.
pub open spec fn driver_script() -> Seq<StepView> {
    seq![
        quietly("net"@, seq!["stop"@, "WinDivert"@]),
        quietly("sc"@, seq!["delete"@, "WinDivert"@]),
        quietly("net"@, seq!["stop"@, "WinDivert14"@]),
        quietly("sc"@, seq!["delete"@, "WinDivert14"@]),
    ]
}

/// The script that unloads the driver.
pub fn stop_driver() -> (r: Vec<Step>)
    ensures
        script(r@) == driver_script(),
{
    let a = strings(&["stop", "WinDivert"]);
    let b = strings(&["delete", "WinDivert"]);
    let c = strings(&["stop", "WinDivert14"]);
    let d = strings(&["delete", "WinDivert14"]);
    assert(texts(a@) =~= seq!["stop"@, "WinDivert"@]);
    assert(texts(b@) =~= seq!["delete"@, "WinDivert"@]);
    assert(texts(c@) =~= seq!["stop"@, "WinDivert14"@]);
    assert(texts(d@) =~= seq!["delete"@, "WinDivert14"@]);
    let mut v: Vec<Step> = Vec::new();
    v.push(run_quietly("net", a));
    v.push(run_quietly("sc", b));
    v.push(run_quietly("net", c));
    v.push(run_quietly("sc", d));
    assert(script(v@) =~= driver_script());
    v
}

/// The script that removes the service, where it is there, and unloads the driver.
pub fn uninstall() -> (r: Vec<Step>)
    ensures
        script(r@) == excused(remove_script(), false) + driver_script(),
{
    let mut v = remove();
    excuse(&mut v, false);
    chain(v, stop_driver())
}

/// Starts the service.
pub fn start() -> (r: Vec<Step>)
    ensures
        script(r@) == seq![must("sc"@, seq!["start"@, SERVICE_NAME@])],
{
    let args = strings(&["start", SERVICE_NAME]);
    assert(texts(args@) =~= seq!["start"@, SERVICE_NAME@]);
    let mut v: Vec<Step> = Vec::new();
    v.push(must_run("sc", args));
    assert(script(v@) =~= seq![must("sc"@, seq!["start"@, SERVICE_NAME@])]);
    v
}

/// Stops the service.
pub fn stop() -> (r: Vec<Step>)
    ensures
        script(r@) == seq![must("sc"@, seq!["stop"@, SERVICE_NAME@])],
{
    let args = strings(&["stop", SERVICE_NAME]);
    assert(texts(args@) =~= seq!["stop"@, SERVICE_NAME@]);
    let mut v: Vec<Step> = Vec::new();
    v.push(must_run("sc", args));
    assert(script(v@) =~= seq![must("sc"@, seq!["stop"@, SERVICE_NAME@])]);
    v
}

/// Who may do what with the service: interactive users may start and stop it, so that
/// only installing and removing it takes a dialog.
pub const ACCESS: &'static str = "D:(A;;CCLCSWRPWPDTLOCRRC;;;SY)(A;;CCDCLCSWRPWPDTLOCRSDRCWDWO;;;BA)(A;;CCLCSWRPWPLOCRRC;;;IU)(A;;CCLCSWLOCRRC;;;SU)";

/// Makes and starts the service, and notes the strategy.
pub open spec fn create_script(path: Seq<char>, label: Seq<char>) -> Seq<StepView> {
    seq![
        quietly(
            "netsh"@,
            seq!["interface"@, "tcp"@, "set"@, "global"@, "timestamps=enabled"@],
        ),
        must(
            "sc"@,
            seq![
                "create"@,
                SERVICE_NAME@,
                "binPath="@,
                path,
                "DisplayName="@,
                "zapret (Zaprust)"@,
                "start="@,
                "auto"@,
            ],
        ),
        may("sc"@, seq!["description"@, SERVICE_NAME@, "Zapret DPI bypass (Zaprust)"@]),
        may("sc"@, seq!["sdset"@, SERVICE_NAME@, ACCESS@]),
        must("sc"@, seq!["start"@, SERVICE_NAME@]),
        quietly(
            "reg"@,
            seq![
                "add"@,
                SERVICE_KEY@,
                "/v"@,
                STRATEGY_VALUE@,
                "/t"@,
                "REG_SZ"@,
                "/d"@,
                label,
                "/f"@,
            ],
        ),
    ]
}

/// The length of a text in bytes.
pub open spec fn byte_len(s: Seq<char>) -> usize {
    vstd::utf8::encode_utf8(s).len() as usize
}

/// The greatest length of the command line of a service, in bytes.
pub const MAX_BIN_PATH: usize = 8000;

/// Why a command line is refused.
pub open spec fn too_long(path: Seq<char>) -> Seq<char> {
    "командная строка службы слишком длинная: "@ + decimal(byte_len(path) as nat)
        + " символов (лимит ~8191)"@
}

/// What installing the service takes.
#[derive(Debug)]
pub struct Install {
    /// Clears an earlier service, where there is one.
    pub cleanup: Vec<Step>,
    /// Makes and starts the new one, or why that cannot be.
    pub create: Result<Vec<Step>, String>,
}

/// What installing the service takes: an earlier one goes first; then the new one is made,
/// set to start with the system, opened to interactive users and started, and the strategy
/// is noted. A command line that is too long is refused.
pub fn install(exe: &str, args: &[String], strategy_label: &str) -> (r: Install)
    ensures
        script(r.cleanup@) == excused(remove_script(), false),
        ({
            let path = bin_path(exe@, texts(args@));
            if byte_len(path) > MAX_BIN_PATH {
                r.create matches Err(e) && e@ == too_long(path)
            } else {
                r.create matches Ok(s) && script(s@) == create_script(path, strategy_label@)
            }
        }),
{
    let mut cleanup = remove();
    excuse(&mut cleanup, false);
    let path = build_bin_path(exe, args);
    let len: usize = path.as_str().len();
    if len > MAX_BIN_PATH {
        return Install {
            cleanup,
            create: Err(
                cat3(
                    "командная строка службы слишком длинная: ",
                    decimal_text(len as u64).as_str(),
                    " символов (лимит ~8191)",
                ),
            ),
        };
    }
    let tcp = strings(&["interface", "tcp", "set", "global", "timestamps=enabled"]);
    let create = strings(
        &[
            "create",
            SERVICE_NAME,
            "binPath=",
            path.as_str(),
            "DisplayName=",
            "zapret (Zaprust)",
            "start=",
            "auto",
        ],
    );
    let describe = strings(&["description", SERVICE_NAME, "Zapret DPI bypass (Zaprust)"]);
    let access = strings(&["sdset", SERVICE_NAME, ACCESS]);
    let note = strings(
        &[
            "add",
            SERVICE_KEY,
            "/v",
            STRATEGY_VALUE,
            "/t",
            "REG_SZ",
            "/d",
            strategy_label,
            "/f",
        ],
    );
    let begin = strings(&["start", SERVICE_NAME]);
    let ghost want = create_script(path@, strategy_label@);
    assert(texts(tcp@) =~= want[0].command.args);
    assert(texts(create@) =~= want[1].command.args);
    assert(texts(describe@) =~= want[2].command.args);
    assert(texts(access@) =~= want[3].command.args);
    assert(texts(begin@) =~= want[4].command.args);
    assert(texts(note@) =~= want[5].command.args);
    let mut v: Vec<Step> = Vec::new();
    v.push(run_quietly("netsh", tcp));
    v.push(must_run("sc", create));
    v.push(may_run("sc", describe));
    v.push(may_run("sc", access));
    v.push(must_run("sc", begin));
    v.push(run_quietly("reg", note));
    assert(script(v@) =~= want);
    Install { cleanup, create: Ok(v) }
}

// ── What holds of every service ─────────────────────────────────────────────

/// The state goes by the words of `sc`: a service that runs is running whatever else is
/// printed; one that is stopped or changes its state is stopped; only a service that `sc`
/// says does not exist, in words or by the number of the error, is not installed.
pub proof fn the_state_is_what_sc_says(p: Seq<char>, q: Seq<char>, t: Seq<char>)
    ensures
        state_in(p + "RUNNING"@ + q) is Running,
        !contains(p + "STOPPED"@ + q, "RUNNING"@) ==> state_in(p + "STOPPED"@ + q) is Stopped,
        !contains(p + "_PENDING"@ + q, "RUNNING"@) ==> state_in(p + "_PENDING"@ + q) is Stopped,
        state_in(t) is NotInstalled ==> !contains(t, "RUNNING"@) && !contains(t, "STOPPED"@)
            && !contains(t, "_PENDING"@) && (contains(t, "1060"@) || contains(
            t,
            "DOES NOT EXIST"@,
        )),
        !contains(t, "RUNNING"@) && !contains(t, "STOPPED"@) && !contains(t, "_PENDING"@) && (
        contains(t, "1060"@) || contains(t, "DOES NOT EXIST"@)) ==> state_in(t) is NotInstalled,
        !contains(t, "RUNNING"@) && !contains(t, "STOPPED"@) && !contains(t, "_PENDING"@)
            && !contains(t, "1060"@) && !contains(t, "DOES NOT EXIST"@) ==> state_in(t) is Unknown,
{
    lemma_word_within(p, "RUNNING"@, q);
    lemma_word_within(p, "STOPPED"@, q);
    lemma_word_within(p, "_PENDING"@, q);
}

proof fn lemma_word_within(p: Seq<char>, w: Seq<char>, q: Seq<char>)
    ensures
        contains(p + w + q, w),
{
    let s = p + w + q;
    let n = p.len() as int;
    assert(s.subrange(n, n + w.len()) =~= w);
    assert(at(s, n, w));
}

/// The process is the number in the second field of the first line that names the engine, in
/// any letter case; a line of another program is passed over, and without such a line there
/// is none.
pub proof fn the_process_of_the_engine_is_found(
    n: u32,
    rest: Seq<char>,
    a: Seq<Seq<char>>,
    b: Seq<Seq<char>>,
)
    requires
        forall|i: int|
            0 <= i < a.len() ==> !contains(lowered(#[trigger] a[i]), "winws.exe"@),
    ensures
        engine_pid(
            a + seq!["\"winws.exe\",\""@ + decimal(n as nat) + "\",\""@ + rest] + b,
        ) == Some(n as nat),
        engine_pid(a) is None,
    decreases a.len(),
{
    let line = "\"winws.exe\",\""@ + decimal(n as nat) + "\",\""@ + rest;
    let all = a + seq![line] + b;
    if a.len() == 0 {
        assert(all[0] == line);
        lemma_tasklist_line(n, rest);
    } else {
        let t = a.skip(1);
        assert forall|i: int| 0 <= i < t.len() implies !contains(
            lowered(#[trigger] t[i]),
            "winws.exe"@,
        ) by {
            assert(t[i] == a[i + 1]);
        }
        the_process_of_the_engine_is_found(n, rest, t, b);
        assert(all[0] == a[0]);
        assert(all.skip(1) =~= t + seq![line] + b);
    }
}

proof fn lemma_tasklist_line(n: u32, rest: Seq<char>)
    ensures
        ({
            let line = "\"winws.exe\",\""@ + decimal(n as nat) + "\",\""@ + rest;
            contains(lowered(line), "winws.exe"@) && pid_in(line) == n
        }),
{
    reveal_strlit("\"winws.exe\",\"");
    reveal_strlit("\",\"");
    reveal_strlit("winws.exe");
    let d = decimal(n as nat);
    let line = "\"winws.exe\",\""@ + d + "\",\""@ + rest;
    lemma_decimal(n as nat);
    decimal_reads_back(n as nat, u32::MAX as nat);
    assert(lowered(line).subrange(1, 10) =~= "winws.exe"@);
    assert(at(lowered(line), 1, "winws.exe"@));
    let q = seq!['"'];
    let first = "\"winws.exe\",\""@.take(11);
    let second = q + d + q;
    let third = q + rest;
    assert(line =~= first + seq![','] + (second + seq![','] + third));
    assert(!first.contains(',')) by {
        assert forall|i: int| 0 <= i < first.len() implies first[i] != ',' by {}
    }
    assert(!second.contains(',')) by {
        if second.contains(',') {
            let i = choose|i: int| 0 <= i < second.len() && second[i] == ',';
            assert(0 < i < second.len() - 1);
            assert(d[i - 1] == ',');
            assert(is_digit(d[i - 1]));
        }
    }
    splitting_takes_pieces_off(first, ',', second + seq![','] + third);
    splitting_takes_pieces_off(second, ',', third);
    assert(split(line, ',')[1] == second);
    let drop = either('"', ' ');
    assert(is_digit(d[0]) && is_digit(d[d.len() - 1]));
    assert(drop('"'));
    assert forall|i: int| 0 <= i < q.len() implies drop(#[trigger] q[i]) by {}
    trimming_takes_off_the_ends(q, d, q, drop);
}

/// The value in the registry is what stands behind its type, with spaces in it and without
/// the white space round it.
pub proof fn the_value_stands_behind_its_type(
    p: Seq<char>,
    w: Seq<char>,
    v: Seq<char>,
    b: Seq<Seq<char>>,
)
    requires
        forall|j: int| 0 <= j < p.len() ==> !at(p + "REG_SZ"@ + (w + v), j, "REG_SZ"@),
        forall|i: int| 0 <= i < w.len() ==> is_white(#[trigger] w[i]),
        v.len() > 0,
        !is_white(v[0]),
        !is_white(v.last()),
    ensures
        reg_value(seq![p + "REG_SZ"@ + (w + v)] + b) == Some(v),
        !contains(p, "REG_SZ"@) ==> reg_value(seq![p] + b) == reg_value(b),
{
    reveal_strlit("REG_SZ");
    let none = Seq::<char>::empty();
    let line = p + "REG_SZ"@ + (w + v);
    let n = p.len() as int;
    assert(line.subrange(n, n + 6) =~= "REG_SZ"@);
    lemma_find_at(line, "REG_SZ"@, n);
    assert(line.skip(n + 6) =~= w + v + none);
    trimming_takes_off_the_ends(w, v, none, whites());
    assert((seq![line] + b)[0] == line);
    find_is_least(p, "REG_SZ"@);
    assert((seq![p] + b)[0] == p);
    assert((seq![p] + b).skip(1) =~= b);
}

/// The service starts the program with the arguments that it was given: split at white space,
/// with regard to quotation marks, its command line gives the program and the arguments
/// again, empty ones and those with spaces included.
pub proof fn the_command_line_comes_back(exe: Seq<char>, args: Seq<Seq<char>>)
    requires
        !exe.contains('"'),
        forall|i: int| 0 <= i < args.len() ==> !(#[trigger] args[i]).contains('"'),
        forall|i: int, j: int|
            0 <= i < args.len() && 0 <= j < args[i].len() ==> !is_white(#[trigger] args[i][j])
                || args[i][j] == ' ',
    ensures
        arguments(bin_path(exe, args), Seq::empty(), false, false) == seq![exe] + args,
{
    let pieces = seq![in_quotes(exe)] + Seq::new(args.len(), |i: int| bin_arg(args[i]));
    let all = seq![exe] + args;
    lemma_line_of_pieces(exe, args);
    assert forall|i: int| 0 <= i < all.len() implies is_piece(#[trigger] pieces[i], all[i]) by {
        if i > 0 {
            let a = args[i - 1];
            assert(all[i] == a && pieces[i] == bin_arg(a));
            assert(!args[i - 1].contains('"'));
            assert forall|j: int| 0 <= j < a.len() implies !is_white(#[trigger] a[j])
                || a[j] == ' ' by {
                assert(args[i - 1][j] == a[j]);
            }
            lemma_bin_arg(a);
        }
    }
    pieces_come_back(pieces, all);
}

proof fn lemma_bin_arg(a: Seq<char>)
    requires
        !a.contains('"'),
        forall|j: int| 0 <= j < a.len() ==> !is_white(#[trigger] a[j]) || a[j] == ' ',
    ensures
        is_piece(bin_arg(a), a),
{
    reveal_strlit(" ");
    reveal_strlit("\"");
    assert(" "@ =~= seq![' ']);
    assert("\""@ =~= seq!['"']);
    if contains(a, "\""@) {
        let i = choose|i: int| at(a, i, "\""@);
        assert(a.subrange(i, i + 1)[0] == a[i]);
        assert(a.contains(a[i]));
    }
    replacing_what_is_absent(a, "\""@, "\\\""@);
    if a.len() == 0 || contains(a, " "@) {
        assert(bin_arg(a) =~= in_quotes(a));
    } else {
        assert forall|j: int| 0 <= j < a.len() implies !is_white(#[trigger] a[j]) by {
            if a[j] == ' ' {
                assert(a.subrange(j, j + 1) =~= " "@);
                assert(at(a, j, " "@));
            }
        }
    }
}

proof fn lemma_line_of_pieces(exe: Seq<char>, args: Seq<Seq<char>>)
    ensures
        bin_path(exe, args) == joined(
            seq![in_quotes(exe)] + Seq::new(args.len(), |i: int| bin_arg(args[i])),
            " "@,
        ),
    decreases args.len(),
{
    reveal_strlit("\"");
    assert("\""@ =~= seq!['"']);
    let pieces = seq![in_quotes(exe)] + Seq::new(args.len(), |i: int| bin_arg(args[i]));
    if args.len() == 0 {
        assert(pieces =~= seq![in_quotes(exe)]);
        assert(bin_path(exe, args) =~= in_quotes(exe));
    } else {
        let t = args.drop_last();
        lemma_line_of_pieces(exe, t);
        assert(pieces.drop_last() =~= seq![in_quotes(exe)] + Seq::new(
            t.len(),
            |i: int| bin_arg(t[i]),
        ));
        assert(pieces.last() == bin_arg(args.last()));
    }
}

/// The service is made with its command line, starts with the system, and is started at
/// once; both have to succeed. The strategy is noted where the query for it looks.
pub proof fn the_new_service_is_started_and_noted(
    path: Seq<char>,
    label: Seq<char>,
    answers: spec_fn(int) -> bool,
)
    ensures
        ({
            let s = create_script(path, label);
            &&& s.len() == 6
            &&& s[1].command.args[0] == "create"@ && s[1].command.args[3] == path
            &&& s[1].command.args[6] == "start="@ && s[1].command.args[7] == "auto"@
            &&& s[4].command.args == seq!["start"@, "zapret"@]
            &&& s[5].command.program == "reg"@ && s[5].command.args[0] == "add"@
            &&& s[5].command.args[1] == "HKLM\\System\\CurrentControlSet\\Services\\zapret"@
            &&& s[5].command.args[3] == "zapret-discord-youtube"@ && s[5].command.args[7] == label
            &&& crate::script::succeeds(s, 0, answers) <==> answers(1) && answers(4)
        }),
{
    reveal_with_fuel(crate::script::succeeds, 7);
    let s = create_script(path, label);
    assert(crate::script::follow(s, 0, answers(0)) == Some(1int));
    assert(crate::script::follow(s, 1, true) == Some(2int));
    assert(crate::script::follow(s, 2, answers(2)) == Some(3int));
    assert(crate::script::follow(s, 3, answers(3)) == Some(4int));
    assert(crate::script::follow(s, 4, true) == Some(5int));
    assert(crate::script::follow(s, 5, answers(5)) == Some(6int));
}

/// Removing the service stops it, deletes it and ends the engine, in this order and under
/// these names; it fails only where the service cannot be deleted. Unloading the driver never
/// fails.
pub proof fn a_removal_ends_everything(answers: spec_fn(int) -> bool)
    ensures
        ({
            let s = remove_script();
            &&& s.len() == 3
            &&& s[0].command.args == seq!["stop"@, "zapret"@]
            &&& s[1].command.args == seq!["delete"@, "zapret"@]
            &&& s[2].command.program == "taskkill"@ && s[2].command.args[1] == "winws.exe"@
            &&& crate::script::succeeds(s, 0, answers) <==> answers(1)
        }),
        crate::script::succeeds(driver_script(), 0, answers),
        driver_script().len() == 4,
        forall|i: int|
            0 <= i < 4 ==> (#[trigger] driver_script()[i]).command.args == seq![
                if i % 2 == 0 {
                    "stop"@
                } else {
                    "delete"@
                },
                if i < 2 {
                    "WinDivert"@
                } else {
                    "WinDivert14"@
                },
            ],
{
    reveal_with_fuel(crate::script::succeeds, 5);
    let s = remove_script();
    assert(crate::script::follow(s, 0, answers(0)) == Some(1int));
    assert(crate::script::follow(s, 1, true) == Some(2int));
    assert(crate::script::follow(s, 2, answers(2)) == Some(3int));
    let d = driver_script();
    assert(crate::script::follow(d, 0, answers(0)) == Some(1int));
    assert(crate::script::follow(d, 1, answers(1)) == Some(2int));
    assert(crate::script::follow(d, 2, answers(2)) == Some(3int));
    assert(crate::script::follow(d, 3, answers(3)) == Some(4int));
}

} // verus!
