//! What is said of the environment: at the start of every process in the log, and as a
//! text that can be handed on.
use vstd::prelude::*;

use crate::logging::Level;
use crate::platform::{bool_text, pid_text, state_text, ServiceState};
use crate::text::{cat, cat3, chars_of};

verus! {

use crate::platform::{bool_word, pid_word, state_word};
use crate::text::{
    all_ascii, at, contains, ends, line_breaks_end_lines, lines_of, opt_text, texts,
};

/// The core as the diagnostics show it.
#[derive(Debug)]
pub struct CoreFacts {
    pub dir: String,
    /// The version of the strategies, if it is known.
    pub version: Option<String>,
    /// The version of the engine, if it is known; nothing at all where the engine comes with
    /// the strategies.
    pub engine_version: Option<Option<String>>,
    /// What is there of the engine.
    pub engine: String,
}

/// What is known of the environment.
#[derive(Debug)]
pub struct Environment {
    pub version: String,
    pub debug: bool,
    pub elevated: bool,
    pub os: String,
    /// What the platform has to say.
    pub lines: Vec<String>,
    /// The program.
    pub exe: Option<String>,
    pub core: Option<CoreFacts>,
    pub state: ServiceState,
    pub pid: Option<u32>,
    /// The log.
    pub log: Option<String>,
}

/// The core as a mathematical value.
pub struct CoreFactsView {
    pub dir: Seq<char>,
    pub version: Option<Seq<char>>,
    pub engine_version: Option<Option<Seq<char>>>,
    pub engine: Seq<char>,
}

impl View for CoreFacts {
    type V = CoreFactsView;

    open spec fn view(&self) -> CoreFactsView {
        CoreFactsView {
            dir: self.dir@,
            version: opt_text(self.version),
            engine_version: match self.engine_version {
                Some(v) => Some(opt_text(v)),
                None => None,
            },
            engine: self.engine@,
        }
    }
}

/// The environment as a mathematical value.
pub struct EnvironmentView {
    pub version: Seq<char>,
    pub debug: bool,
    pub elevated: bool,
    pub os: Seq<char>,
    pub lines: Seq<Seq<char>>,
    pub exe: Option<Seq<char>>,
    pub core: Option<CoreFactsView>,
    pub state: ServiceState,
    pub pid: Option<u32>,
    pub log: Option<Seq<char>>,
}

impl View for Environment {
    type V = EnvironmentView;

    open spec fn view(&self) -> EnvironmentView {
        EnvironmentView {
            version: self.version@,
            debug: self.debug,
            elevated: self.elevated,
            os: self.os@,
            lines: texts(self.lines@),
            exe: opt_text(self.exe),
            core: match self.core {
                Some(c) => Some(c@),
                None => None,
            },
            state: self.state,
            pid: self.pid,
            log: opt_text(self.log),
        }
    }
}

/// The build.
pub open spec fn build_word(debug: bool) -> Seq<char> {
    if debug {
        "debug"@
    } else {
        "release"@
    }
}

fn build_text(debug: bool) -> (r: &'static str)
    ensures
        r@ == build_word(debug),
{
    if debug {
        "debug"
    } else {
        "release"
    }
}

/// Whether a path may make trouble: it holds a space or something that is not ASCII.
pub open spec fn troublesome(path: Seq<char>) -> bool {
    path.contains(' ') || !all_ascii(path)
}

/// Whether a path may make trouble.
pub fn is_troublesome(path: &str) -> (r: bool)
    ensures
        r == troublesome(path@),
{
    let cs = chars_of(path);
    let mut i: usize = 0;
    while i < cs.len()
        invariant
            i <= cs@.len(),
            cs@ == path@,
            forall|k: int| 0 <= k < i ==> #[trigger] path@[k] != ' ' && (path@[k] as u32) < 128,
        decreases cs@.len() - i,
    {
        let c = cs[i];
        if c == ' ' || c as u32 >= 128 {
            assert(path@[i as int] == c);
            return true;
        }
        i += 1;
    }
    false
}

// ── The head of the log ─────────────────────────────────────────────────────

/// A line of the log with its severity.
pub open spec fn entries(v: Seq<(Level, String)>) -> Seq<(Level, Seq<char>)> {
    Seq::new(v.len(), |i: int| (v[i].0, v[i].1@))
}

/// Lines as remarks.
pub open spec fn remarks(ls: Seq<Seq<char>>) -> Seq<(Level, Seq<char>)> {
    Seq::new(ls.len(), |i: int| (Level::Info, ls[i]))
}

/// A path, and a warning where it may make trouble.
pub open spec fn path_entries(words: Seq<char>, path: Seq<char>, warning: Seq<char>) -> Seq<
    (Level, Seq<char>),
> {
    seq![(Level::Info, words + path)] + (if troublesome(path) {
        seq![(Level::Warn, warning)]
    } else {
        Seq::empty()
    })
}

/// The lines on the program.
pub open spec fn exe_entries(exe: Option<Seq<char>>) -> Seq<(Level, Seq<char>)> {
    match exe {
        Some(p) => path_entries(
            "exe: "@,
            p,
            "путь к exe содержит пробел/не-ASCII — zapret и служба могут не работать"@,
        ),
        None => Seq::empty(),
    }
}

/// The lines on the core.
pub open spec fn core_entries(core: Option<CoreFactsView>) -> Seq<(Level, Seq<char>)> {
    match core {
        Some(c) => path_entries("core: "@, c.dir, "путь к core содержит пробел/не-ASCII"@) + seq![
            (Level::Info, "core: "@ + c.engine),
        ],
        None => seq![(Level::Warn, "ядро не найдено (папка core/)"@)],
    }
}

/// The lines with which every process begins its log.
pub open spec fn header_of(e: EnvironmentView) -> Seq<(Level, Seq<char>)> {
    seq![
        (
            Level::Info,
            "Zaprust "@ + e.version + " ("@ + build_word(e.debug) + "), elevated="@ + bool_word(
                e.elevated,
            ),
        ),
        (Level::Info, "ос: "@ + e.os),
    ] + remarks(e.lines) + exe_entries(e.exe) + core_entries(e.core)
}

fn push_path(v: &mut Vec<(Level, String)>, words: &str, path: &str, warning: &str)
    ensures
        entries(final(v)@) == entries(old(v)@) + path_entries(words@, path@, warning@),
{
    let ghost before = entries(v@);
    v.push((Level::Info, cat(words, path)));
    if is_troublesome(path) {
        v.push((Level::Warn, warning.to_owned()));
    }
    assert(entries(v@) =~= before + path_entries(words@, path@, warning@));
}

fn push_remarks(v: &mut Vec<(Level, String)>, ls: &[String])
    ensures
        entries(final(v)@) == entries(old(v)@) + remarks(texts(ls@)),
{
    let ghost before = entries(v@);
    let mut i: usize = 0;
    assert(before + remarks(texts(ls@)).take(0) =~= before);
    while i < ls.len()
        invariant
            i <= ls@.len(),
            entries(v@) == before + remarks(texts(ls@)).take(i as int),
        decreases ls@.len() - i,
    {
        let ghost so_far = entries(v@);
        v.push((Level::Info, ls[i].clone()));
        proof {
            let all = remarks(texts(ls@));
            assert(all[i as int] == (Level::Info, ls@[i as int]@));
            assert(entries(v@) =~= so_far.push(all[i as int]));
            assert(all.take(i + 1) =~= all.take(i as int).push(all[i as int]));
            assert(entries(v@) =~= before + all.take(i + 1));
        }
        i += 1;
    }
    assert(remarks(texts(ls@)).take(ls@.len() as int) =~= remarks(texts(ls@)));
}

fn push_exe(v: &mut Vec<(Level, String)>, exe: &Option<String>)
    ensures
        entries(final(v)@) == entries(old(v)@) + exe_entries(opt_text(*exe)),
{
    match exe {
        Some(p) => {
            push_path(
                v,
                "exe: ",
                p.as_str(),
                "путь к exe содержит пробел/не-ASCII — zapret и служба могут не работать",
            );
        },
        None => {
            assert(entries(v@) + Seq::<(Level, Seq<char>)>::empty() =~= entries(v@));
        },
    }
}

fn push_core(v: &mut Vec<(Level, String)>, core: &Option<CoreFacts>)
    ensures
        entries(final(v)@) == entries(old(v)@) + core_entries(
            match *core {
                Some(c) => Some(c@),
                None => None,
            },
        ),
{
    let ghost before = entries(v@);
    match core {
        Some(c) => {
            push_path(v, "core: ", c.dir.as_str(), "путь к core содержит пробел/не-ASCII");
            let ghost so_far = entries(v@);
            v.push((Level::Info, cat("core: ", c.engine.as_str())));
            assert(entries(v@) =~= so_far + seq![(Level::Info, "core: "@ + c.engine@)]);
            assert(entries(v@) =~= before + core_entries(Some(c@)));
        },
        None => {
            v.push((Level::Warn, "ядро не найдено (папка core/)".to_owned()));
            assert(entries(v@) =~= before + core_entries(None));
        },
    }
}

/// The lines with which every process begins its log.
pub fn log_env_header(e: &Environment) -> (r: Vec<(Level, String)>)
    ensures
        entries(r@) == header_of(e@),
{
    let mut v: Vec<(Level, String)> = Vec::new();
    let mut s = cat3("Zaprust ", e.version.as_str(), " (");
    s.append(build_text(e.debug));
    s.append("), elevated=");
    s.append(bool_text(e.elevated));
    v.push((Level::Info, s));
    v.push((Level::Info, cat("ос: ", e.os.as_str())));
    assert(entries(v@) =~= seq![(Level::Info, s@), (Level::Info, "ос: "@ + e.os@)]);
    push_remarks(&mut v, &e.lines);
    push_exe(&mut v, &e.exe);
    push_core(&mut v, &e.core);
    v
}

// ── The text ────────────────────────────────────────────────────────────────

/// Lines, each with its line break.
pub open spec fn each_line(ls: Seq<Seq<char>>) -> Seq<char>
    decreases ls.len(),
{
    if ls.len() == 0 {
        Seq::empty()
    } else {
        each_line(ls.drop_last()) + ls.last() + "\n"@
    }
}

/// A version as the diagnostics show it.
pub open spec fn shown_version(v: Option<Seq<char>>) -> Seq<char> {
    match v {
        Some(t) => t,
        None => "нет"@,
    }
}

/// A labelled line, where there is something to show.
pub open spec fn optional_line(words: Seq<char>, value: Option<Seq<char>>) -> Seq<char> {
    match value {
        Some(t) => words + t + "\n"@,
        None => Seq::empty(),
    }
}

/// What the diagnostics say of the core.
pub open spec fn core_part(core: Option<CoreFactsView>) -> Seq<char> {
    match core {
        Some(c) => "core: "@ + c.dir + "\n"@ + ("версия Flowseal: "@ + shown_version(c.version)
            + "\n"@) + (match c.engine_version {
            Some(v) => "версия nfqws: "@ + shown_version(v) + "\n"@,
            None => Seq::empty(),
        }) + ("core ready: "@ + c.engine + "\n"@),
        None => "core: не найдено\n"@,
    }
}

/// The diagnostics: the environment, and the last problems of the log.
pub open spec fn diagnostics_of(e: EnvironmentView, problems: Seq<Seq<char>>) -> Seq<char> {
    ("Zaprust "@ + e.version + " ("@ + build_word(e.debug) + ")\n"@) + ("elevated: "@ + bool_word(
        e.elevated,
    ) + "\n"@) + ("ос: "@ + e.os + "\n"@) + each_line(e.lines) + optional_line("exe: "@, e.exe)
        + core_part(e.core) + ("service: "@ + state_word(e.state) + ", engine_alive: "@ + pid_word(
        e.pid,
    ) + "\n"@) + optional_line("log: "@, e.log)
        + "\n— последние проблемы (ERROR/WARN) —\n"@ + each_line(problems)
}

fn all_lines(ls: &[String]) -> (r: String)
    ensures
        r@ == each_line(texts(ls@)),
{
    let ghost all = texts(ls@);
    let mut s = "".to_owned();
    proof {
        reveal_strlit("");
        assert(all.take(0) =~= Seq::<Seq<char>>::empty());
        assert(s@ =~= Seq::<char>::empty());
    }
    let mut i: usize = 0;
    while i < ls.len()
        invariant
            i <= ls@.len(),
            all == texts(ls@),
            s@ == each_line(all.take(i as int)),
        decreases ls@.len() - i,
    {
        proof {
            assert(all.take(i + 1).drop_last() =~= all.take(i as int));
            assert(all.take(i + 1).last() == ls@[i as int]@);
        }
        s.append(ls[i].as_str());
        s.append("\n");
        i += 1;
    }
    assert(all.take(all.len() as int) =~= all);
    s
}

fn labelled(words: &str, value: &Option<String>) -> (r: String)
    ensures
        r@ == optional_line(words@, opt_text(*value)),
{
    match value {
        Some(t) => cat3(words, t.as_str(), "\n"),
        None => {
            proof {
                reveal_strlit("");
                assert(""@ =~= Seq::<char>::empty());
            }
            "".to_owned()
        },
    }
}

fn version_line(words: &str, v: &Option<String>) -> (r: String)
    ensures
        r@ == words@ + shown_version(opt_text(*v)) + "\n"@,
{
    match v {
        Some(t) => cat3(words, t.as_str(), "\n"),
        None => cat3(words, "нет", "\n"),
    }
}

fn core_text(core: &Option<CoreFacts>) -> (r: String)
    ensures
        r@ == core_part(
            match *core {
                Some(c) => Some(c@),
                None => None,
            },
        ),
{
    match core {
        Some(c) => {
            let mut s = cat3("core: ", c.dir.as_str(), "\n");
            s.append(version_line("версия Flowseal: ", &c.version).as_str());
            match &c.engine_version {
                Some(v) => {
                    s.append(version_line("версия nfqws: ", v).as_str());
                },
                None => {
                    assert(s@ + Seq::<char>::empty() =~= s@);
                },
            }
            s.append(cat3("core ready: ", c.engine.as_str(), "\n").as_str());
            s
        },
        None => "core: не найдено\n".to_owned(),
    }
}

/// The diagnostics: the environment, and the given problems of the log.
pub fn diagnostics_text(e: &Environment, problems: &[String]) -> (r: String)
    ensures
        r@ == diagnostics_of(e@, texts(problems@)),
{
    let mut s = cat3("Zaprust ", e.version.as_str(), " (");
    s.append(build_text(e.debug));
    s.append(")\n");
    s.append(cat3("elevated: ", bool_text(e.elevated), "\n").as_str());
    s.append(cat3("ос: ", e.os.as_str(), "\n").as_str());
    s.append(all_lines(&e.lines).as_str());
    s.append(labelled("exe: ", &e.exe).as_str());
    s.append(core_text(&e.core).as_str());
    let mut t = cat3("service: ", state_text(e.state), ", engine_alive: ");
    t.append(pid_text(e.pid).as_str());
    t.append("\n");
    s.append(t.as_str());
    s.append(labelled("log: ", &e.log).as_str());
    s.append("\n— последние проблемы (ERROR/WARN) —\n");
    s.append(all_lines(problems).as_str());
    s
}

// ── What holds of all diagnostics ───────────────────────────────────────────

/// The log warns of a path exactly where it holds a space or a character that is not ASCII,
/// and of the core where there is none; without such a reason it begins without a warning.
pub proof fn warnings_have_a_reason(e: EnvironmentView)
    ensures
        (exists|i: int| 0 <= i < header_of(e).len() && (#[trigger] header_of(e)[i]).0 == Level::Warn)
            <==> e.core is None || (e.core matches Some(c) && (c.dir.contains(' ') || !all_ascii(
            c.dir,
        ))) || (e.exe matches Some(p) && (p.contains(' ') || !all_ascii(p))),
{
    let h = header_of(e);
    let n = 2 + e.lines.len() as int;
    let x = exe_entries(e.exe);
    let c = core_entries(e.core);
    assert forall|i: int| 0 <= i < h.len() implies #[trigger] h[i] == (if i < 2 {
        (Level::Info, h[i].1)
    } else if i < n {
        (Level::Info, e.lines[i - 2])
    } else if i < n + x.len() {
        x[i - n]
    } else {
        c[i - n - x.len()]
    }) by {}
    match e.exe {
        Some(p) => {
            if troublesome(p) {
                assert(x[1].0 == Level::Warn);
                assert(h[n + 1].0 == Level::Warn);
            }
        },
        None => {},
    }
    match e.core {
        Some(k) => {
            if troublesome(k.dir) {
                assert(c[1].0 == Level::Warn);
                assert(h[n + x.len() as int + 1].0 == Level::Warn);
            }
        },
        None => {
            assert(c[0].0 == Level::Warn);
            assert(h[n + x.len() as int].0 == Level::Warn);
        },
    }
}

/// Every line is shown, on a line of its own and in its order: read back, the lines are
/// the same.
pub proof fn every_line_is_shown(ls: Seq<Seq<char>>)
    requires
        forall|i: int| 0 <= i < ls.len() ==> !(#[trigger] ls[i]).contains('\n'),
        forall|i: int|
            0 <= i < ls.len() ==> (#[trigger] ls[i]).len() == 0 || ls[i].last() != '\r',
    ensures
        lines_of(each_line(ls)) == ls,
    decreases ls.len(),
{
    if ls.len() == 0 {
        line_breaks_end_lines(Seq::empty(), Seq::empty());
    } else {
        let rest = ls.skip(1);
        assert forall|i: int| 0 <= i < rest.len() implies !(#[trigger] rest[i]).contains('\n') && (
        rest[i].len() == 0 || rest[i].last() != '\r') by {
            assert(rest[i] == ls[i + 1]);
        }
        every_line_is_shown(rest);
        lemma_first_line(ls);
        reveal_strlit("\n");
        assert("\n"@ =~= seq!['\n']);
        line_breaks_end_lines(ls[0], each_line(rest));
        assert(seq![ls[0]] + rest =~= ls);
    }
}

proof fn lemma_first_line(ls: Seq<Seq<char>>)
    requires
        ls.len() > 0,
    ensures
        each_line(ls) == ls[0] + "\n"@ + each_line(ls.skip(1)),
    decreases ls.len(),
{
    let t = ls.drop_last();
    if ls.len() == 1 {
        assert(t =~= Seq::empty());
        assert(ls.skip(1) =~= Seq::empty());
        assert(each_line(ls) =~= ls[0] + "\n"@ + each_line(ls.skip(1)));
    } else {
        lemma_first_line(t);
        assert(t.skip(1) =~= ls.skip(1).drop_last());
        assert(ls.skip(1).last() == ls.last());
        assert(each_line(ls) =~= ls[0] + "\n"@ + each_line(ls.skip(1)));
    }
}

/// The diagnostics end with the problems, all of them and nothing behind them, and before
/// those they tell whether the program is elevated, the system, and the core.
pub proof fn problems_come_last(e: EnvironmentView, problems: Seq<Seq<char>>)
    ensures
        ends(
            diagnostics_of(e, problems),
            "\n— последние проблемы (ERROR/WARN) —\n"@ + each_line(problems),
        ),
        contains(diagnostics_of(e, problems), "ос: "@ + e.os + "\n"@),
        contains(diagnostics_of(e, problems), "elevated: "@ + bool_word(e.elevated) + "\n"@),
        e.core matches Some(c) ==> contains(
            diagnostics_of(e, problems),
            "core: "@ + c.dir + "\n"@,
        ) && contains(diagnostics_of(e, problems), "core ready: "@ + c.engine + "\n"@),
        e.core is None ==> contains(diagnostics_of(e, problems), "core: не найдено\n"@),
{
    let a = "Zaprust "@ + e.version + " ("@ + build_word(e.debug) + ")\n"@;
    let b = "elevated: "@ + bool_word(e.elevated) + "\n"@;
    let o = "ос: "@ + e.os + "\n"@;
    let c = core_part(e.core);
    let s = "service: "@ + state_word(e.state) + ", engine_alive: "@ + pid_word(e.pid) + "\n"@;
    lemma_parts(
        a,
        b,
        o,
        each_line(e.lines),
        optional_line("exe: "@, e.exe),
        c,
        s,
        optional_line("log: "@, e.log),
        "\n— последние проблемы (ERROR/WARN) —\n"@,
        each_line(problems),
    );
    let d = diagnostics_of(e, problems);
    match e.core {
        Some(k) => {
            let x = "core: "@ + k.dir + "\n"@;
            let y = "core ready: "@ + k.engine + "\n"@;
            let v = "версия Flowseal: "@ + shown_version(k.version) + "\n"@;
            let w = match k.engine_version {
                Some(v) => "версия nfqws: "@ + shown_version(v) + "\n"@,
                None => Seq::empty(),
            };
            lemma_core_parts(x, v, w, y);
            lemma_within_within(d, c, x);
            lemma_within_within(d, c, y);
        },
        None => {},
    }
}

proof fn lemma_parts(
    a: Seq<char>,
    b: Seq<char>,
    o: Seq<char>,
    l: Seq<char>,
    x: Seq<char>,
    c: Seq<char>,
    s: Seq<char>,
    g: Seq<char>,
    h: Seq<char>,
    p: Seq<char>,
)
    ensures
        contains(a + b + o + l + x + c + s + g + h + p, b),
        contains(a + b + o + l + x + c + s + g + h + p, o),
        contains(a + b + o + l + x + c + s + g + h + p, c),
        ends(a + b + o + l + x + c + s + g + h + p, h + p),
{
    let d = a + b + o + l + x + c + s + g + h + p;
    let t = h + p;
    assert(d.skip(d.len() - t.len()) =~= t);
    lemma_within(a, b, o + l + x + c + s + g + h + p);
    assert(a + b + (o + l + x + c + s + g + h + p) =~= d);
    lemma_within(a + b, o, l + x + c + s + g + h + p);
    assert(a + b + o + (l + x + c + s + g + h + p) =~= d);
    lemma_within(a + b + o + l + x, c, s + g + h + p);
    assert(a + b + o + l + x + c + (s + g + h + p) =~= d);
}

proof fn lemma_core_parts(x: Seq<char>, v: Seq<char>, w: Seq<char>, y: Seq<char>)
    ensures
        contains(x + v + w + y, x),
        contains(x + v + w + y, y),
{
    let none = Seq::<char>::empty();
    lemma_within(none, x, v + w + y);
    assert(none + x + (v + w + y) =~= x + v + w + y);
    lemma_within(x + v + w, y, none);
    assert(x + v + w + y + none =~= x + v + w + y);
}

proof fn lemma_within_within(d: Seq<char>, c: Seq<char>, x: Seq<char>)
    requires
        contains(d, c),
        contains(c, x),
    ensures
        contains(d, x),
{
    let i = choose|i: int| at(d, i, c);
    let j = choose|j: int| at(c, j, x);
    assert(d.subrange(i + j, i + j + x.len()) =~= d.subrange(i, i + c.len()).subrange(
        j,
        j + x.len(),
    ));
    assert(at(d, i + j, x));
}

proof fn lemma_within(a: Seq<char>, b: Seq<char>, c: Seq<char>)
    ensures
        contains(a + b + c, b),
{
    let s = a + b + c;
    let n = a.len() as int;
    assert(s.subrange(n, n + b.len()) =~= b);
    assert(at(s, n, b));
}

} // verus!
