//! The bypass service of Linux: a systemd unit of its own.
//!
//! Starting writes and enables the unit, stopping disables and removes it. The unit runs
//! this program as its body, with the chosen strategy, and takes the rules down when it
//! ends. A comment in the unit says which strategy it was made with.
use vstd::prelude::*;

use super::runtime::force_down;
use crate::platform::ServiceState;
use crate::script::{may_run, must_run, Step};
use crate::strategies::{find_named, Strategy};
use crate::text::{
    cat, cat3, decimal_text, lines, replace, same, strings, strip_prefix, trim,
};

verus! {

use super::runtime::force_down_script;
use crate::script::{may, must, script, StepView};
use crate::strategies::{index_named, views};
use crate::text::{
    after_prefix, at, begins, contains, decimal, ends, is_white, lines_of, opt_str, opt_text,
    replaced, texts, trimmed, trimming_takes_off_the_ends, whites,
};

/// The name of the unit.
pub const UNIT_NAME: &'static str = "zaprust.service";

/// Where the unit stands.
pub const UNIT_PATH: &'static str = "/etc/systemd/system/zaprust.service";

/// Marks the line of the unit that holds the name of the strategy.
pub const STRATEGY_MARKER: &'static str = "# zaprust-strategy=";

// ── Reading ─────────────────────────────────────────────────────────────────

/// The state of the service: there is a unit or not, and what `systemctl is-active` has
/// printed, if it ran.
pub open spec fn state_of(unit: bool, active: Option<Seq<char>>) -> ServiceState {
    if !unit {
        ServiceState::NotInstalled
    } else {
        match active {
            None => ServiceState::Unknown,
            Some(out) => {
                let word = trimmed(out);
                if word == "active"@ || word == "activating"@ {
                    ServiceState::Running
                } else if word == "inactive"@ || word == "failed"@ || word == "deactivating"@ {
                    ServiceState::Stopped
                } else {
                    ServiceState::Unknown
                }
            },
        }
    }
}

/// The state of the service.
pub fn state(unit: bool, active: Option<&str>) -> (r: ServiceState)
    ensures
        r == state_of(unit, opt_str(active)),
{
    if !unit {
        return ServiceState::NotInstalled;
    }
    match active {
        None => ServiceState::Unknown,
        Some(out) => {
            let word = trim(out);
            if same(word, "active") || same(word, "activating") {
                ServiceState::Running
            } else if same(word, "inactive") || same(word, "failed") || same(
                word,
                "deactivating",
            ) {
                ServiceState::Stopped
            } else {
                ServiceState::Unknown
            }
        },
    }
}

/// What follows the marker in the first line that begins with it.
pub open spec fn marked(ls: Seq<Seq<char>>) -> Option<Seq<char>>
    decreases ls.len(),
{
    if ls.len() == 0 {
        None
    } else {
        match after_prefix(ls[0], STRATEGY_MARKER@) {
            Some(v) => Some(v),
            None => marked(ls.skip(1)),
        }
    }
}

/// The strategy that a unit names.
pub open spec fn strategy_in(unit: Seq<char>) -> Option<Seq<char>> {
    match marked(lines_of(unit)) {
        Some(v) => if trimmed(v).len() == 0 {
            None
        } else {
            Some(trimmed(v))
        },
        None => None,
    }
}

/// The strategy with which the service is installed: `unit` is the text of the unit, if
/// there is one.
pub fn installed_strategy(unit: Option<&str>) -> (r: Option<String>)
    ensures
        opt_text(r) == (match unit {
            Some(t) => strategy_in(t@),
            None => None,
        }),
{
    match unit {
        None => None,
        Some(text) => {
            let all = lines(text);
            let ghost ls = texts(all@);
            let mut i: usize = 0;
            assert(ls.skip(0) =~= ls);
            while i < all.len()
                invariant
                    i <= all@.len(),
                    ls == texts(all@),
                    ls == lines_of(text@),
                    unit == Some(text),
                    marked(ls) == marked(ls.skip(i as int)),
                decreases all@.len() - i,
            {
                assert(ls.skip(i as int)[0] == all@[i as int]@);
                assert(ls.skip(i as int).skip(1) =~= ls.skip(i + 1));
                match strip_prefix(all[i].as_str(), STRATEGY_MARKER) {
                    Some(v) => {
                        let name = trim(v);
                        if name.is_empty() {
                            return None;
                        }
                        return Some(name.to_owned());
                    },
                    None => {},
                }
                i += 1;
            }
            None
        },
    }
}

// ── Writing ─────────────────────────────────────────────────────────────────

/// A value in the double quotes of systemd: `\` and `"` get a `\` before them.
pub open spec fn quoted(s: Seq<char>) -> Seq<char> {
    "\""@ + replaced(replaced(s, "\\"@, "\\\\"@), "\""@, "\\\""@) + "\""@
}

/// A value in the double quotes of systemd.
pub fn sd_quote(s: &str) -> (r: String)
    ensures
        r@ == quoted(s@),
{
    proof {
        reveal_strlit("\\");
        reveal_strlit("\"");
    }
    let a = replace(s, "\\", "\\\\");
    let b = replace(a.as_str(), "\"", "\\\"");
    cat3("\"", b.as_str(), "\"")
}

/// What a quoted value stands for: the character behind a `\\` is taken as it is.
pub open spec fn unescaped(s: Seq<char>) -> Seq<char>
    decreases s.len(),
{
    if s.len() == 0 {
        Seq::empty()
    } else if s[0] == '\\' && s.len() > 1 {
        seq![s[1]] + unescaped(s.skip(2))
    } else {
        seq![s[0]] + unescaped(s.skip(1))
    }
}

/// Quoting loses nothing: between its quotation marks a quoted value stands for the value
/// itself.
pub proof fn quoting_loses_nothing(s: Seq<char>)
    ensures
        quoted(s).len() >= 2,
        unescaped(quoted(s).subrange(1, quoted(s).len() - 1)) == s,
{
    reveal_strlit("\"");
    let inner = replaced(replaced(s, "\\"@, "\\\\"@), "\""@, "\\\""@);
    assert("\""@.len() == 1);
    assert(quoted(s).subrange(1, quoted(s).len() - 1) =~= inner);
    lemma_unescape(s);
}

proof fn lemma_unescape(s: Seq<char>)
    ensures
        unescaped(replaced(replaced(s, "\\"@, "\\\\"@), "\""@, "\\\""@)) == s,
    decreases s.len(),
{
    reveal_strlit("\"");
    reveal_strlit("\\");
    reveal_strlit("\\\\");
    reveal_strlit("\\\"");
    let q = seq!['"'];
    let b = seq!['\\'];
    let bb = seq!['\\', '\\'];
    let bq = seq!['\\', '"'];
    assert("\""@ =~= q);
    assert("\\"@ =~= b);
    assert("\\\\"@ =~= bb);
    assert("\\\""@ =~= bq);
    let first = replaced(s, b, bb);
    if s.len() == 0 {
        crate::text::find_is_least(s, b);
        crate::text::find_is_least(s, q);
        assert(first =~= s);
        assert(replaced(first, q, bq) =~= s);
        assert(unescaped(s) =~= s);
    } else {
        let t = s.skip(1);
        let ft = replaced(t, b, bb);
        let rt = replaced(ft, q, bq);
        lemma_unescape(t);
        crate::text::replacing_a_char_by_char(s, '\\', bb);
        if s[0] == '\\' {
            assert(first =~= bb + ft);
            crate::text::replacing_a_char_by_char(first, '"', bq);
            assert(first.skip(1) =~= b + ft);
            crate::text::replacing_a_char_by_char(b + ft, '"', bq);
            assert((b + ft).skip(1) =~= ft);
            let r = replaced(first, q, bq);
            assert(r =~= bb + rt);
            assert(r.skip(2) =~= rt);
        } else {
            assert(first =~= seq![s[0]] + ft);
            crate::text::replacing_a_char_by_char(first, '"', bq);
            assert(first.skip(1) =~= ft);
            let r = replaced(first, q, bq);
            if s[0] == '"' {
                assert(r =~= bq + rt);
                assert(r.skip(2) =~= rt);
            } else {
                assert(r =~= seq![s[0]] + rt);
                assert(r.skip(1) =~= rt);
            }
        }
        assert(seq![s[0]] + t =~= s);
    }
}

/// The first line of the unit.
pub const UNIT_HEAD: &'static str = "# Сгенерировано Zaprust — не редактировать вручную (перезапишется при Старте).\n";

/// The part of the unit between the strategy and the environment.
pub const UNIT_MIDDLE: &'static str = "\n[Unit]\nDescription=Zaprust DPI bypass (nfqws + nftables)\nDocumentation=https://github.com/hausond/Zaprust\nAfter=network-online.target\nWants=network-online.target\n\n[Service]\nType=simple\n";

/// The end of the unit.
pub const UNIT_END: &'static str = " --engine-down\nKillMode=mixed\nRestart=on-failure\nRestartSec=3\n\n[Install]\nWantedBy=multi-user.target\n";

/// The line that hands the calling user to the service, which at boot has no other way to
/// know whose core it is to use.
pub open spec fn env_line(uid: Option<u32>) -> Seq<char> {
    match uid {
        Some(u) => "Environment=PKEXEC_UID="@ + decimal(u as nat) + "\n"@,
        None => Seq::empty(),
    }
}

/// The text of the unit.
pub open spec fn unit_text(
    exe: Seq<char>,
    strategy: Seq<char>,
    gf: bool,
    uid: Option<u32>,
) -> Seq<char> {
    UNIT_HEAD@ + STRATEGY_MARKER@ + strategy + UNIT_MIDDLE@ + env_line(uid) + "ExecStart="@
        + quoted(exe) + " --svc-run "@ + quoted(strategy) + " "@ + (if gf {
        "1"@
    } else {
        "0"@
    }) + "\nExecStopPost="@ + quoted(exe) + UNIT_END@
}

/// The text of the unit: `exe` is this program, which runs as the body of the service.
pub fn render_unit(exe: &str, strategy: &str, game_filter: bool, pkexec_uid: Option<u32>) -> (r:
    String)
    ensures
        r@ == unit_text(exe@, strategy@, game_filter, pkexec_uid),
{
    let exe_q = sd_quote(exe);
    let strat_q = sd_quote(strategy);
    let env = match pkexec_uid {
        Some(uid) => cat3("Environment=PKEXEC_UID=", decimal_text(uid as u64).as_str(), "\n"),
        None => String::new(),
    };
    assert(env@ =~= env_line(pkexec_uid));
    let mut s = cat3(UNIT_HEAD, STRATEGY_MARKER, strategy);
    s.append(UNIT_MIDDLE);
    s.append(env.as_str());
    s.append("ExecStart=");
    s.append(exe_q.as_str());
    s.append(" --svc-run ");
    s.append(strat_q.as_str());
    s.append(" ");
    if game_filter {
        s.append("1");
    } else {
        s.append("0");
    }
    s.append("\nExecStopPost=");
    s.append(exe_q.as_str());
    s.append(UNIT_END);
    s
}

/// What installing the service takes: the unit is written, then the commands run.
#[derive(Debug)]
pub struct Install {
    pub unit: String,
    pub steps: Vec<Step>,
}

/// The commands that put a written unit into effect.
pub open spec fn install_script() -> Seq<StepView> {
    seq![
        must("systemctl"@, seq!["daemon-reload"@]),
        must("systemctl"@, seq!["enable"@, UNIT_NAME@]),
        must("systemctl"@, seq!["restart"@, UNIT_NAME@]),
    ]
}

/// What installing the service takes, or why it cannot be: `systemd` says whether the
/// machine runs it. Installing again overwrites the unit and restarts the service, so it
/// also changes the strategy.
pub fn install(
    systemd: bool,
    exe: &str,
    strategy: &str,
    game_filter: bool,
    pkexec_uid: Option<u32>,
) -> (r: Result<Install, String>)
    ensures
        !systemd ==> (r matches Err(e) && e@
            == "systemd не обнаружен (/run/systemd/system отсутствует) — служба недоступна на этом init"@),
        systemd ==> (r matches Ok(i) && i.unit@ == unit_text(
            exe@,
            strategy@,
            game_filter,
            pkexec_uid,
        ) && script(i.steps@) == install_script()),
{
    if !systemd {
        return Err(
            "systemd не обнаружен (/run/systemd/system отсутствует) — служба недоступна на этом init".to_owned(),
        );
    }
    let reload = strings(&["daemon-reload"]);
    let enable = strings(&["enable", UNIT_NAME]);
    let restart = strings(&["restart", UNIT_NAME]);
    assert(texts(reload@) =~= seq!["daemon-reload"@]);
    assert(texts(enable@) =~= seq!["enable"@, UNIT_NAME@]);
    assert(texts(restart@) =~= seq!["restart"@, UNIT_NAME@]);
    let mut steps: Vec<Step> = Vec::new();
    steps.push(must_run("systemctl", reload));
    steps.push(must_run("systemctl", enable));
    steps.push(must_run("systemctl", restart));
    assert(script(steps@) =~= install_script());
    Ok(Install { unit: render_unit(exe, strategy, game_filter, pkexec_uid), steps })
}

/// Why the service cannot be installed with a strategy, before anything is tried: the
/// engine is missing (`diag` says more), or there is no such strategy.
pub fn check_install(engine: bool, diag: &str, strategies: &[Strategy], strategy: &str) -> (r:
    Result<(), String>)
    ensures
        !engine ==> (r matches Err(e) && e@ == "движок не готов: "@ + diag@),
        engine && index_named(views(strategies@), strategy@) is None ==> (r matches Err(e) && e@
            == "стратегия не найдена: "@ + strategy@),
        engine && index_named(views(strategies@), strategy@) is Some ==> r is Ok,
{
    if !engine {
        return Err(cat("движок не готов: ", diag));
    }
    match find_named(strategies, strategy) {
        Some(_) => Ok(()),
        None => Err(cat("стратегия не найдена: ", strategy)),
    }
}

/// What removing the service takes, in this order.
#[derive(Debug)]
pub struct Removal {
    /// Stops and disables the service.
    pub disable: Vec<Step>,
    /// Whether the unit is to be deleted.
    pub delete_unit: bool,
    /// Makes systemd forget it.
    pub forget: Vec<Step>,
    /// Stops every engine and takes all rules down.
    pub clean: Vec<Step>,
}

/// Removes the service, where there is a unit; in any case no engine and no rule is left.
pub fn remove(unit: bool) -> (r: Removal)
    ensures
        r.delete_unit == unit,
        script(r.clean@) == force_down_script(),
        script(r.disable@) == (if unit {
            seq![may("systemctl"@, seq!["disable"@, "--now"@, UNIT_NAME@])]
        } else {
            Seq::empty()
        }),
        script(r.forget@) == (if unit {
            seq![
                may("systemctl"@, seq!["daemon-reload"@]),
                may("systemctl"@, seq!["reset-failed"@, UNIT_NAME@]),
            ]
        } else {
            Seq::empty()
        }),
{
    let mut disable: Vec<Step> = Vec::new();
    let mut forget: Vec<Step> = Vec::new();
    if unit {
        let off = strings(&["disable", "--now", UNIT_NAME]);
        let reload = strings(&["daemon-reload"]);
        let reset = strings(&["reset-failed", UNIT_NAME]);
        assert(texts(off@) =~= seq!["disable"@, "--now"@, UNIT_NAME@]);
        assert(texts(reload@) =~= seq!["daemon-reload"@]);
        assert(texts(reset@) =~= seq!["reset-failed"@, UNIT_NAME@]);
        disable.push(may_run("systemctl", off));
        forget.push(may_run("systemctl", reload));
        forget.push(may_run("systemctl", reset));
        assert(script(disable@) =~= seq![
            may("systemctl"@, seq!["disable"@, "--now"@, UNIT_NAME@]),
        ]);
        assert(script(forget@) =~= seq![
            may("systemctl"@, seq!["daemon-reload"@]),
            may("systemctl"@, seq!["reset-failed"@, UNIT_NAME@]),
        ]);
    } else {
        assert(script(disable@) =~= Seq::<StepView>::empty());
        assert(script(forget@) =~= Seq::<StepView>::empty());
    }
    Removal { disable, delete_unit: unit, forget, clean: force_down() }
}

/// Starts the installed service.
pub fn start(unit: bool) -> (r: Result<Vec<Step>, String>)
    ensures
        unit ==> (r matches Ok(s) && script(s@) == seq![
            must("systemctl"@, seq!["start"@, UNIT_NAME@]),
        ]),
        !unit ==> (r matches Err(e) && e@
            == "служба не установлена (нет юнита) — сначала Старт/install"@),
{
    if !unit {
        return Err("служба не установлена (нет юнита) — сначала Старт/install".to_owned());
    }
    let args = strings(&["start", UNIT_NAME]);
    assert(texts(args@) =~= seq!["start"@, UNIT_NAME@]);
    let mut v: Vec<Step> = Vec::new();
    v.push(must_run("systemctl", args));
    assert(script(v@) =~= seq![must("systemctl"@, seq!["start"@, UNIT_NAME@])]);
    Ok(v)
}

/// Stops the service and keeps its unit. Without a unit there is nothing to do.
pub fn stop(unit: bool) -> (r: Vec<Step>)
    ensures
        script(r@) == (if unit {
            seq![must("systemctl"@, seq!["stop"@, UNIT_NAME@])]
        } else {
            Seq::empty()
        }),
{
    let mut v: Vec<Step> = Vec::new();
    if unit {
        let args = strings(&["stop", UNIT_NAME]);
        assert(texts(args@) =~= seq!["stop"@, UNIT_NAME@]);
        v.push(must_run("systemctl", args));
        assert(script(v@) =~= seq![must("systemctl"@, seq!["stop"@, UNIT_NAME@])]);
    } else {
        assert(script(v@) =~= Seq::<StepView>::empty());
    }
    v
}

/// Reading the strategy from a unit gives back the one that the unit was made with, for
/// every name of one line that is not blank (without the white space around it), whatever
/// the program, the game filter and the user.
pub proof fn unit_remembers_its_strategy(
    exe: Seq<char>,
    strategy: Seq<char>,
    gf: bool,
    uid: Option<u32>,
)
    requires
        !strategy.contains('\n'),
        trimmed(strategy).len() > 0,
    ensures
        strategy_in(unit_text(exe, strategy, gf, uid)) == Some(trimmed(strategy)),
{
    let text = unit_text(exe, strategy, gf, uid);
    let first = UNIT_HEAD@;
    reveal_strlit(
        "# Сгенерировано Zaprust — не редактировать вручную (перезапишется при Старте).\n",
    );
    reveal_strlit("# zaprust-strategy=");
    reveal_strlit(
        "\n[Unit]\nDescription=Zaprust DPI bypass (nfqws + nftables)\nDocumentation=https://github.com/hausond/Zaprust\nAfter=network-online.target\nWants=network-online.target\n\n[Service]\nType=simple\n",
    );
    let n = first.len() as int;
    let m = STRATEGY_MARKER@.len() as int;
    let line = STRATEGY_MARKER@ + strategy;
    let rest = text.skip(n);
    // The first line.
    assert(first[n - 1] == '\n');
    assert(forall|i: int| 0 <= i < n - 1 ==> first[i] != '\n') by {
        lemma_head_is_one_line();
    }
    assert(forall|i: int| 0 <= i < n ==> text[i] == first[i]);
    lemma_first_line(text, n - 1);
    assert(text.skip(n - 1 + 1) =~= rest);
    // The second line.
    assert(rest.take(m + strategy.len()) =~= line);
    assert(rest[m + strategy.len()] == UNIT_MIDDLE@[0]);
    assert(UNIT_MIDDLE@[0] == '\n');
    assert forall|i: int| 0 <= i < m + strategy.len() implies rest[i] != '\n' by {
        assert(rest[i] == line[i]);
        if i < m {
            lemma_marker_is_one_line();
        } else {
            assert(strategy[i - m] == line[i]);
        }
    }
    lemma_first_line(rest, m + strategy.len());
    let ls = lines_of(text);
    let l0 = crate::text::chomp(text.take(n - 1));
    let l1 = crate::text::chomp(line);
    assert(ls[0] == l0);
    assert(ls.skip(1) =~= lines_of(rest));
    assert(lines_of(rest)[0] == l1);
    // The first line is no marker.
    assert(first[2] == 'С');
    assert(STRATEGY_MARKER@[2] == 'z');
    if begins(l0, STRATEGY_MARKER@) {
        assert(l0.take(m)[2] == STRATEGY_MARKER@[2]);
        assert(l0[2] == first[2]);
    }
    // The second line is.
    let name = crate::text::chomp(strategy);
    lemma_chomp_keeps_trim(strategy);
    assert(strategy.len() > 0) by {
        crate::text::lemma_trim_start_fact(strategy, crate::text::whites());
        crate::text::lemma_trim_end_fact(
            crate::text::trim_start_by(strategy, crate::text::whites()),
            crate::text::whites(),
        );
    }
    assert(l1 =~= STRATEGY_MARKER@ + name);
    assert(l1.take(m) =~= STRATEGY_MARKER@);
    assert(l1.skip(m) =~= name);
    assert(marked(lines_of(rest)) == Some(name));
}

proof fn lemma_head_is_one_line()
    ensures
        forall|i: int| 0 <= i < UNIT_HEAD@.len() - 1 ==> UNIT_HEAD@[i] != '\n',
{
    reveal_strlit(
        "# Сгенерировано Zaprust — не редактировать вручную (перезапишется при Старте).\n",
    );
    assert(UNIT_HEAD@.len() == 79);
}

proof fn lemma_marker_is_one_line()
    ensures
        forall|i: int| 0 <= i < STRATEGY_MARKER@.len() ==> STRATEGY_MARKER@[i] != '\n',
{
    reveal_strlit("# zaprust-strategy=");
    assert(STRATEGY_MARKER@.len() == 19);
}

proof fn lemma_first_line(s: Seq<char>, k: int)
    requires
        0 <= k < s.len(),
        s[k] == '\n',
        forall|i: int| 0 <= i < k ==> s[i] != '\n',
    ensures
        lines_of(s) == seq![crate::text::chomp(s.take(k))] + lines_of(s.skip(k + 1)),
{
    assert(s.subrange(k, k + 1) =~= seq!['\n']);
    assert forall|j: int| 0 <= j < k implies !crate::text::at(s, j, seq!['\n']) by {
        if crate::text::at(s, j, seq!['\n']) {
            assert(s.subrange(j, j + 1)[0] == s[j]);
        }
    }
    crate::text::lemma_find_at(s, seq!['\n'], k);
}

proof fn lemma_chomp_keeps_trim(s: Seq<char>)
    ensures
        trimmed(crate::text::chomp(s)) == trimmed(s),
{
    if s.len() > 0 && s.last() == '\r' {
        lemma_trim_start_of_prefix(s);
    }
}

proof fn lemma_trim_start_of_prefix(s: Seq<char>)
    requires
        s.len() > 0,
        s.last() == '\r',
    ensures
        trimmed(s.drop_last()) == trimmed(s),
    decreases s.len(),
{
    let w = crate::text::whites();
    let t = s.drop_last();
    if s.len() == 1 {
        assert(s.skip(1) =~= t);
        assert(crate::text::trim_start_by(s, w) == crate::text::trim_start_by(t, w));
    } else if w(s[0]) {
        assert(s.skip(1).drop_last() =~= t.skip(1));
        lemma_trim_start_of_prefix(s.skip(1));
        assert(t[0] == s[0]);
    } else {
        assert(t[0] == s[0]);
        assert(crate::text::trim_start_by(s, w) == s);
        assert(crate::text::trim_start_by(t, w) == t);
    }
}

/// The state follows from the unit and from what `systemctl` prints, with any white space
/// round it: without a unit nothing is installed; a unit that is active or becoming so runs;
/// one that is inactive, failed or on its way there is stopped; anything else is unknown.
pub proof fn the_state_is_what_systemd_says(
    a: Seq<char>,
    word: Seq<char>,
    b: Seq<char>,
    active: Option<Seq<char>>,
)
    requires
        forall|i: int| 0 <= i < a.len() ==> is_white(#[trigger] a[i]),
        forall|i: int| 0 <= i < b.len() ==> is_white(#[trigger] b[i]),
        word.len() > 0 ==> !is_white(word[0]) && !is_white(word.last()),
    ensures
        state_of(false, active) is NotInstalled,
        state_of(true, None) is Unknown,
        state_of(true, Some(a + word + b)) is Running <==> word == "active"@ || word
            == "activating"@,
        state_of(true, Some(a + word + b)) is Stopped <==> word == "inactive"@ || word
            == "failed"@ || word == "deactivating"@,
        !(state_of(true, active) is NotInstalled),
{
    trimming_takes_off_the_ends(a, word, b, whites());
    reveal_strlit("active");
    reveal_strlit("activating");
    reveal_strlit("inactive");
    reveal_strlit("failed");
    reveal_strlit("deactivating");
    assert("active"@.len() == 6 && "activating"@.len() == 10 && "inactive"@.len() == 8
        && "failed"@.len() == 6 && "deactivating"@.len() == 12);
    assert("active"@[0] == 'a' && "failed"@[0] == 'f');
}

/// The unit hands the calling user to the service exactly where there is one, has the
/// service restarted when it fails, and is wanted at boot.
pub proof fn the_unit_says_how_to_run(
    exe: Seq<char>,
    strategy: Seq<char>,
    gf: bool,
    uid: Option<u32>,
)
    ensures
        uid matches Some(u) ==> contains(
            unit_text(exe, strategy, gf, uid),
            "Environment=PKEXEC_UID="@ + decimal(u as nat) + "\n"@,
        ),
        ends(
            unit_text(exe, strategy, gf, uid),
            "\nRestart=on-failure\nRestartSec=3\n\n[Install]\nWantedBy=multi-user.target\n"@,
        ),
{
    let head = UNIT_HEAD@ + STRATEGY_MARKER@ + strategy + UNIT_MIDDLE@;
    let run = "ExecStart="@ + quoted(exe) + " --svc-run "@ + quoted(strategy) + " "@ + (if gf {
        "1"@
    } else {
        "0"@
    }) + "\nExecStopPost="@ + quoted(exe);
    let all = unit_text(exe, strategy, gf, uid);
    let env = env_line(uid);
    assert(all =~= head + env + run + UNIT_END@);
    let n = head.len() as int;
    assert(all.subrange(n, n + env.len()) =~= env);
    assert(at(all, n, env));
    reveal_strlit(
        "\nRestart=on-failure\nRestartSec=3\n\n[Install]\nWantedBy=multi-user.target\n",
    );
    reveal_strlit(
        " --engine-down\nKillMode=mixed\nRestart=on-failure\nRestartSec=3\n\n[Install]\nWantedBy=multi-user.target\n",
    );
    let end = "\nRestart=on-failure\nRestartSec=3\n\n[Install]\nWantedBy=multi-user.target\n"@;
    let k = UNIT_END@.len() - end.len();
    assert(UNIT_END@.skip(k) =~= end);
    assert(all.skip(all.len() - end.len()) =~= UNIT_END@.skip(k));
}

/// Putting a written unit into effect takes three commands that all have to succeed: systemd
/// reads it, it is enabled for the next boot, and it is restarted, so that a service that
/// already runs takes up the new strategy.
pub proof fn a_written_unit_takes_effect(answers: spec_fn(int) -> bool)
    ensures
        install_script().len() == 3,
        install_script()[0].command.args[0] == "daemon-reload"@,
        install_script()[1].command.args == seq!["enable"@, "zaprust.service"@],
        install_script()[2].command.args == seq!["restart"@, "zaprust.service"@],
        forall|i: int|
            0 <= i < 3 ==> (#[trigger] install_script()[i]).command.program == "systemctl"@,
        crate::script::succeeds(install_script(), 0, answers) <==> answers(0) && answers(1)
            && answers(2),
{
    reveal_with_fuel(crate::script::succeeds, 4);
    let s = install_script();
    assert(crate::script::follow(s, 0, true) == Some(1int));
    assert(crate::script::follow(s, 1, true) == Some(2int));
    assert(crate::script::follow(s, 2, true) == Some(3int));
}

} // verus!
