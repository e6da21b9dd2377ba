//! The log: one file that every process of the program appends to, line by line.
//!
//! A line reads `[YYYY-MM-DD HH:MM:SS.mmm] [LEVEL] [role:pid] [component] message`.
use vstd::prelude::*;

use crate::pick::pick_first;
use crate::text::{
    cat3, copy_opt, decimal_text, lines, position, replace, starts_with, tail,
};

verus! {

use crate::pick::first_where;
use crate::text::{
    at, begins, contains, decimal, find, last_n, lines_of, opt_text, replaced, replacing_brings_nothing_foreign,
    texts,
};

/// How grave a message is.
#[derive(Clone, Copy, Debug, PartialEq, Eq, Structural)]
pub enum Level {
    Error,
    Warn,
    Info,
    Debug,
}

impl Level {
    /// The name of the level in the log.
    pub open spec fn name(self) -> Seq<char> {
        match self {
            Level::Error => "ERROR"@,
            Level::Warn => "WARN"@,
            Level::Info => "INFO"@,
            Level::Debug => "DEBUG"@,
        }
    }

    /// The rank of the level: the gravest has the least.
    pub open spec fn rank(self) -> u8 {
        match self {
            Level::Error => 0,
            Level::Warn => 1,
            Level::Info => 2,
            Level::Debug => 3,
        }
    }

    /// The name of the level in the log.
    pub fn tag(self) -> (r: &'static str)
        ensures
            r@ == self.name(),
    {
        match self {
            Level::Error => "ERROR",
            Level::Warn => "WARN",
            Level::Info => "INFO",
            Level::Debug => "DEBUG",
        }
    }

    /// The rank of the level: the gravest has the least.
    pub fn sev(self) -> (r: u8)
        ensures
            r == self.rank(),
    {
        match self {
            Level::Error => 0,
            Level::Warn => 1,
            Level::Info => 2,
            Level::Debug => 3,
        }
    }
}

/// The log of one process.
#[derive(Debug)]
pub struct Logger {
    /// The directory of the file, where it has one.
    pub dir: Option<String>,
    /// The file.
    pub path: String,
    /// What the process is for (gui, svc, autoselect, ...).
    pub role: String,
    pub pid: u32,
    /// The least grave level that is still written.
    pub min: Level,
}

/// The log of a process. `verbose` lets debug messages through.
pub fn init(dir: Option<String>, path: String, role: &str, pid: u32, verbose: bool) -> (r: Logger)
    ensures
        opt_text(r.dir) == opt_text(dir),
        r.path@ == path@,
        r.role@ == role@,
        r.pid == pid,
        r.min == (if verbose {
            Level::Debug
        } else {
            Level::Info
        }),
{
    Logger {
        dir,
        path,
        role: role.to_owned(),
        pid,
        min: if verbose {
            Level::Debug
        } else {
            Level::Info
        },
    }
}

/// The directory of the log.
pub fn log_dir(logger: Option<&Logger>) -> (r: Option<String>)
    ensures
        opt_text(r) == (match logger {
            Some(l) => opt_text(l.dir),
            None => None,
        }),
{
    match logger {
        Some(l) => copy_opt(&l.dir),
        None => None,
    }
}

/// The file of the log.
pub fn log_path(logger: Option<&Logger>) -> (r: Option<String>)
    ensures
        opt_text(r) == (match logger {
            Some(l) => Some(l.path@),
            None => None,
        }),
{
    match logger {
        Some(l) => Some(l.path.clone()),
        None => None,
    }
}

// ── Lines ───────────────────────────────────────────────────────────────────

/// One line of the log.
pub open spec fn line_of(
    now: Seq<char>,
    level: Level,
    role: Seq<char>,
    pid: u32,
    component: Seq<char>,
    msg: Seq<char>,
) -> Seq<char> {
    "["@ + now + "] ["@ + level.name() + "] ["@ + role + ":"@ + decimal(pid as nat) + "] ["@
        + component + "] "@ + replaced(msg, "\n"@, " | "@) + "\n"@
}

/// What is to be appended to the log: nothing without a log and for a message that is not
/// grave enough.
pub open spec fn entry(
    logger: Option<Logger>,
    now: Seq<char>,
    level: Level,
    component: Seq<char>,
    msg: Seq<char>,
) -> Option<Seq<char>> {
    match logger {
        Some(l) => if level.rank() > l.min.rank() {
            None
        } else {
            Some(line_of(now, level, l.role@, l.pid, component, msg))
        },
        None => None,
    }
}

/// The log as a specification sees it.
pub open spec fn seen(logger: Option<&Logger>) -> Option<Logger> {
    match logger {
        Some(l) => Some(*l),
        None => None,
    }
}

/// What is to be appended to the log for a message.
pub fn write(logger: Option<&Logger>, now: &str, level: Level, component: &str, msg: &str) -> (r:
    Option<String>)
    ensures
        opt_text(r) == entry(seen(logger), now@, level, component@, msg@),
{
    match logger {
        None => None,
        Some(l) => {
            if level.sev() > l.min.sev() {
                return None;
            }
            proof {
                reveal_strlit("\n");
            }
            let mut s = cat3("[", now, "] [");
            s.append(level.tag());
            s.append("] [");
            s.append(l.role.as_str());
            s.append(":");
            s.append(decimal_text(l.pid as u64).as_str());
            s.append("] [");
            s.append(component);
            s.append("] ");
            s.append(replace(msg, "\n", " | ").as_str());
            s.append("\n");
            Some(s)
        },
    }
}

/// What is to be appended for an error.
pub fn error(logger: Option<&Logger>, now: &str, component: &str, msg: &str) -> (r: Option<String>)
    ensures
        opt_text(r) == entry(seen(logger), now@, Level::Error, component@, msg@),
{
    write(logger, now, Level::Error, component, msg)
}

/// What is to be appended for a warning.
pub fn warn(logger: Option<&Logger>, now: &str, component: &str, msg: &str) -> (r: Option<String>)
    ensures
        opt_text(r) == entry(seen(logger), now@, Level::Warn, component@, msg@),
{
    write(logger, now, Level::Warn, component, msg)
}

/// What is to be appended for a notice.
pub fn info(logger: Option<&Logger>, now: &str, component: &str, msg: &str) -> (r: Option<String>)
    ensures
        opt_text(r) == entry(seen(logger), now@, Level::Info, component@, msg@),
{
    write(logger, now, Level::Info, component, msg)
}

/// What is to be appended for a debug message.
pub fn debug(logger: Option<&Logger>, now: &str, component: &str, msg: &str) -> (r: Option<String>)
    ensures
        opt_text(r) == entry(seen(logger), now@, Level::Debug, component@, msg@),
{
    write(logger, now, Level::Debug, component, msg)
}

proof fn lemma_no_char(s: Seq<char>, c: char)
    ensures
        contains(s, seq![c]) <==> s.contains(c),
{
    if contains(s, seq![c]) {
        let i = choose|i: int| at(s, i, seq![c]);
        assert(s.subrange(i, i + 1)[0] == s[i]);
        assert(s[i] == c);
    }
    if s.contains(c) {
        let i = choose|i: int| 0 <= i < s.len() && s[i] == c;
        assert(s.subrange(i, i + 1) =~= seq![c]);
        assert(at(s, i, seq![c]));
    }
}

proof fn lemma_decimal_one_line(n: nat)
    ensures
        !decimal(n).contains('\n'),
{
    crate::text::lemma_decimal(n);
}

/// An entry is one line, whatever the message holds: it has one line feed, its last
/// character, as long as the time, the role and the component hold none.
pub proof fn entry_is_one_line(
    now: Seq<char>,
    level: Level,
    role: Seq<char>,
    pid: u32,
    component: Seq<char>,
    msg: Seq<char>,
)
    requires
        !now.contains('\n'),
        !role.contains('\n'),
        !component.contains('\n'),
    ensures
        line_of(now, level, role, pid, component, msg).len() > 0,
        line_of(now, level, role, pid, component, msg).last() == '\n',
        !line_of(now, level, role, pid, component, msg).drop_last().contains('\n'),
{
    reveal_strlit("\n");
    reveal_strlit(" | ");
    reveal_strlit("[");
    reveal_strlit("] [");
    reveal_strlit(":");
    reveal_strlit("] ");
    reveal_strlit("ERROR");
    reveal_strlit("WARN");
    reveal_strlit("INFO");
    reveal_strlit("DEBUG");
    let body = replaced(msg, "\n"@, " | "@);
    assert("\n"@ =~= seq!['\n']);
    assert(" | "@.len() == 3);
    replacing_brings_nothing_foreign(msg, "\n"@, " | "@, "\n"@);
    lemma_no_char(body, '\n');
    lemma_decimal_one_line(pid as nat);
    let line = line_of(now, level, role, pid, component, msg);
    let head = "["@ + now + "] ["@ + level.name() + "] ["@ + role + ":"@ + decimal(pid as nat)
        + "] ["@ + component + "] "@;
    assert(!("["@ + now).contains('\n'));
    assert(!("["@ + now + "] ["@ + level.name()).contains('\n'));
    assert(!("["@ + now + "] ["@ + level.name() + "] ["@ + role + ":"@).contains('\n'));
    assert(!head.contains('\n'));
    assert(line.drop_last() =~= head + body);
}

/// Whether a line of the log is that of an error or a warning: its second field in brackets
/// says so, whatever the message holds.
pub open spec fn is_problem(line: Seq<char>) -> bool {
    begins(line, "["@) && match find(line, "] ["@) {
        Some(i) => begins(line.skip(i + 3), "ERROR]"@) || begins(line.skip(i + 3), "WARN]"@),
        None => false,
    }
}

fn tells_a_problem(line: &str) -> (r: bool)
    ensures
        r == is_problem(line@),
{
    proof {
        reveal_strlit("] [");
    }
    if !starts_with(line, "[") {
        return false;
    }
    match position(line, "] [") {
        Some(i) => {
            let rest = tail(line, i + 3);
            starts_with(rest, "ERROR]") || starts_with(rest, "WARN]")
        },
        None => false,
    }
}

/// The lines of an error or a warning.
pub open spec fn problems(ls: Seq<Seq<char>>) -> Seq<Seq<char>>
    decreases ls.len(),
{
    if ls.len() == 0 {
        Seq::empty()
    } else if is_problem(ls.last()) {
        problems(ls.drop_last()).push(ls.last())
    } else {
        problems(ls.drop_last())
    }
}

/// The last `n` lines of errors and warnings in the log; none where the log could not be
/// read.
pub fn recent_problems(text: Option<&str>, n: usize) -> (r: Vec<String>)
    ensures
        texts(r@) == (match text {
            Some(t) => last_n(problems(lines_of(t@)), n as nat),
            None => Seq::empty(),
        }),
{
    match text {
        None => {
            let v: Vec<String> = Vec::new();
            assert(texts(v@) =~= Seq::<Seq<char>>::empty());
            v
        },
        Some(t) => {
            let all = lines(t);
            let ghost ls = texts(all@);
            let mut kept: Vec<String> = Vec::new();
            let mut i: usize = 0;
            assert(ls.take(0) =~= Seq::<Seq<char>>::empty());
            while i < all.len()
                invariant
                    i <= all@.len(),
                    ls == texts(all@),
                    texts(kept@) == problems(ls.take(i as int)),
                decreases all@.len() - i,
            {
                let ghost before = texts(kept@);
                proof {
                    assert(ls.take(i + 1).drop_last() =~= ls.take(i as int));
                    assert(ls.take(i + 1).last() == all@[i as int]@);
                }
                if tells_a_problem(all[i].as_str()) {
                    kept.push(all[i].clone());
                    assert(texts(kept@) =~= before.push(all@[i as int]@));
                }
                i += 1;
            }
            assert(ls.take(ls.len() as int) =~= ls);
            let ghost full = texts(kept@);
            if kept.len() > n {
                let cut: usize = kept.len() - n;
                let end = kept.split_off(cut);
                assert(texts(end@) =~= full.skip(full.len() - n));
                end
            } else {
                kept
            }
        },
    }
}

proof fn lemma_problems(ls: Seq<Seq<char>>, line: Seq<char>)
    ensures
        problems(ls).contains(line) ==> is_problem(line) && ls.contains(line),
        is_problem(line) && ls.contains(line) ==> problems(ls).contains(line),
    decreases ls.len(),
{
    if ls.len() > 0 {
        lemma_problems(ls.drop_last(), line);
        let before = problems(ls.drop_last());
        if problems(ls).contains(line) {
            if !before.contains(line) {
                let i = choose|i: int| 0 <= i < problems(ls).len() && problems(ls)[i] == line;
                assert(i == before.len());
                assert(ls[ls.len() - 1] == line);
            } else {
                let i = choose|i: int|
                    0 <= i < ls.drop_last().len() && ls.drop_last()[i] == line;
                assert(ls[i] == line);
            }
        }
        if is_problem(line) && ls.contains(line) {
            let i = choose|i: int| 0 <= i < ls.len() && ls[i] == line;
            if i == ls.len() - 1 {
                assert(problems(ls)[before.len() as int] == line);
            } else {
                assert(ls.drop_last()[i] == line);
                let k = choose|k: int| 0 <= k < before.len() && before[k] == line;
                assert(problems(ls)[k] == line);
            }
        }
    }
}

proof fn lemma_field(now: Seq<char>, level: Level, rest: Seq<char>)
    requires
        forall|i: int| 0 <= i < now.len() ==> now[i] != ']',
    ensures
        is_problem("["@ + now + "] ["@ + level.name() + "] ["@ + rest) <==> level is Error
            || level is Warn,
{
    reveal_strlit("[");
    reveal_strlit("] [");
    let word = level.name();
    let line = "["@ + now + "] ["@ + word + "] ["@ + rest;
    let n = now.len() as int;
    assert("["@.len() == 1 && "] ["@.len() == 3);
    assert(line.take(1) =~= "["@);
    assert(line.subrange(n + 1, n + 4) =~= "] ["@);
    assert(at(line, n + 1, "] ["@));
    assert forall|j: int| 0 <= j < n + 1 implies !at(line, j, "] ["@) by {
        if at(line, j, "] ["@) {
            assert(line.subrange(j, j + 3)[0] == line[j]);
            assert("] ["@[0] == ']');
            if j == 0 {
                assert(line[0] == '[');
            } else {
                assert(line[j] == now[j - 1]);
            }
        }
    }
    crate::text::lemma_find_at(line, "] ["@, n + 1);
    let tail = word + "] ["@ + rest;
    assert(line.skip(n + 4) =~= tail);
    lemma_words(level, rest);
}

proof fn lemma_words(level: Level, rest: Seq<char>)
    ensures
        begins(level.name() + "] ["@ + rest, "ERROR]"@) || begins(
            level.name() + "] ["@ + rest,
            "WARN]"@,
        ) <==> level is Error || level is Warn,
{
    reveal_strlit("] [");
    reveal_strlit("ERROR");
    reveal_strlit("WARN");
    reveal_strlit("INFO");
    reveal_strlit("DEBUG");
    reveal_strlit("ERROR]");
    reveal_strlit("WARN]");
    let word = level.name();
    let tail = word + "] ["@ + rest;
    assert(tail[0] == word[0]);
    match level {
        Level::Error => {
            assert(tail.take(6) =~= "ERROR]"@);
        },
        Level::Warn => {
            assert(tail.take(5) =~= "WARN]"@);
        },
        _ => {
            assert(word[0] == 'I' || word[0] == 'D');
            if begins(tail, "ERROR]"@) {
                assert(tail.take(6)[0] == tail[0]);
            }
            if begins(tail, "WARN]"@) {
                assert(tail.take(5)[0] == tail[0]);
            }
        },
    }
}

/// The level alone decides what counts as a problem: an entry of the log is among the
/// problems of a text that holds it when it was written as an error or a warning, and never
/// when it was written at another level, whatever its message holds.
pub proof fn the_level_alone_decides(
    t: Moment,
    level: Level,
    role: Seq<char>,
    pid: u32,
    component: Seq<char>,
    msg: Seq<char>,
    ls: Seq<Seq<char>>,
)
    ensures
        ({
            let line = crate::text::chomp(
                line_of(stamp(t), level, role, pid, component, msg).drop_last(),
            );
            problems(ls).contains(line) <==> ls.contains(line) && (level is Error || level is Warn)
        }),
{
    let now = stamp(t);
    let head = "["@ + now + "] ["@ + level.name() + "] ["@;
    let more = role + ":"@ + decimal(pid as nat) + "] ["@ + component + "] "@ + replaced(
        msg,
        "\n"@,
        " | "@,
    );
    let full = line_of(now, level, role, pid, component, msg);
    reveal_strlit("] ");
    reveal_strlit("\n");
    assert(full.drop_last() =~= head + more);
    let rest = crate::text::chomp(more);
    assert("] "@.len() == 2);
    assert(more.len() >= 2);
    let line = crate::text::chomp(full.drop_last());
    assert(line =~= head + rest);
    lemma_stamp(t);
    lemma_field(now, level, rest);
    lemma_problems(ls, line);
}

// ── The file ────────────────────────────────────────────────────────────────

/// The directory of the log: the first that can be made and written to, else the
/// directory for temporary files.
pub fn pick_log_dir(dirs: &[String], usable: &[bool], temp: &str) -> (r: String)
    ensures
        r@ == (match first_where(texts(dirs@), usable@) {
            Some(d) => d,
            None => temp@,
        }),
{
    match pick_first(dirs, usable) {
        Some(d) => d,
        None => temp.to_owned(),
    }
}

/// The name of an older log: the greater the number, the older.
pub open spec fn sibling_name(n: u32) -> Seq<char> {
    "zaprust."@ + decimal(n as nat) + ".log"@
}

/// The name of an older log.
pub fn sibling(n: u32) -> (r: String)
    ensures
        r@ == sibling_name(n),
{
    cat3("zaprust.", decimal_text(n as u64).as_str(), ".log")
}

/// One step of the rotation. Number 0 is the log itself, the others are its siblings.
#[derive(Clone, Copy, Debug, PartialEq, Eq, Structural)]
pub enum FileOp {
    Remove(u32),
    Rename(u32, u32),
}

/// The greatest size of a log, in bytes, that is not yet rotated.
pub const MAX_LOG: u64 = 2097152;

/// The steps of the rotation, where the log has `len` bytes.
pub open spec fn rotation(len: u64) -> Seq<FileOp> {
    if len > MAX_LOG {
        seq![
            FileOp::Remove(3),
            FileOp::Rename(2, 3),
            FileOp::Rename(1, 2),
            FileOp::Rename(0, 1),
        ]
    } else {
        Seq::empty()
    }
}

/// The steps of the rotation, where the log has `len` bytes: each log becomes the next
/// older one, and the oldest goes.
pub fn rotate(len: u64) -> (r: Vec<FileOp>)
    ensures
        len <= MAX_LOG ==> r@.len() == 0,
        len > MAX_LOG ==> r@ == seq![
            FileOp::Remove(3),
            FileOp::Rename(2, 3),
            FileOp::Rename(1, 2),
            FileOp::Rename(0, 1),
        ],
        r@ == rotation(len),
{
    let mut v: Vec<FileOp> = Vec::new();
    if len > MAX_LOG {
        v.push(FileOp::Remove(3));
        v.push(FileOp::Rename(2, 3));
        v.push(FileOp::Rename(1, 2));
        v.push(FileOp::Rename(0, 1));
    }
    v
}

/// The logs after a step. A file that is not there is neither removed nor renamed.
pub open spec fn applied(files: Map<u32, Seq<char>>, op: FileOp) -> Map<u32, Seq<char>> {
    match op {
        FileOp::Remove(n) => files.remove(n),
        FileOp::Rename(a, b) => if files.dom().contains(a) {
            files.insert(b, files[a]).remove(a)
        } else {
            files
        },
    }
}

/// The logs after some steps.
pub open spec fn all_applied(files: Map<u32, Seq<char>>, ops: Seq<FileOp>) -> Map<u32, Seq<char>>
    decreases ops.len(),
{
    if ops.len() == 0 {
        files
    } else {
        all_applied(applied(files, ops[0]), ops.skip(1))
    }
}

/// The rotation makes every log one older: the log itself is gone, each of the three
/// siblings is what the next younger log was, and nothing else is touched.
pub proof fn rotation_ages_every_log(files: Map<u32, Seq<char>>)
    ensures
        ({
            let after = all_applied(
                files,
                seq![
                    FileOp::Remove(3),
                    FileOp::Rename(2, 3),
                    FileOp::Rename(1, 2),
                    FileOp::Rename(0, 1),
                ],
            );
            &&& !after.dom().contains(0)
            &&& forall|n: u32|
                0 < n <= 3 ==> (#[trigger] after.dom().contains(n)) == files.dom().contains(
                    (n - 1) as u32,
                )
            &&& forall|n: u32|
                0 < n <= 3 && #[trigger] after.dom().contains(n) ==> after[n] == files[(n
                    - 1) as u32]
            &&& forall|n: u32|
                n > 3 ==> (#[trigger] after.dom().contains(n)) == files.dom().contains(n)
            &&& forall|n: u32| n > 3 && #[trigger] after.dom().contains(n) ==> after[n] == files[n]
        }),
{
    let ops = seq![
        FileOp::Remove(3),
        FileOp::Rename(2, 3),
        FileOp::Rename(1, 2),
        FileOp::Rename(0, 1),
    ];
    let a = applied(files, ops[0]);
    let b = applied(a, ops[1]);
    let c = applied(b, ops[2]);
    let d = applied(c, ops[3]);
    reveal_with_fuel(all_applied, 5);
    assert(ops.skip(1)[0] == ops[1]);
    assert(ops.skip(1).skip(1)[0] == ops[2]);
    assert(ops.skip(1).skip(1).skip(1)[0] == ops[3]);
    assert(all_applied(files, ops) == d);
}

/// A log of more than two mebibytes is rotated, so that a new one begins, nothing that is
/// less than three rotations old is lost, and there are never more than three older logs; a
/// smaller log is left alone.
pub proof fn only_a_large_log_is_rotated(files: Map<u32, Seq<char>>, len: u64, n: u32)
    ensures
        len <= 2 * 1024 * 1024 ==> all_applied(files, rotation(len)) == files,
        len > 2 * 1024 * 1024 ==> {
            let after = all_applied(files, rotation(len));
            &&& !after.dom().contains(0)
            &&& n < 3 && files.dom().contains(n) ==> after.dom().contains((n + 1) as u32) && after[(
            n + 1) as u32] == files[n]
            &&& (forall|k: u32| k > 3 ==> !#[trigger] files.dom().contains(k)) ==> n > 3
                ==> !after.dom().contains(n)
        },
{
    rotation_ages_every_log(files);
    if n < 3 {
        let m = (n + 1) as u32;
        assert((m - 1) as u32 == n);
        if len > MAX_LOG {
            assert(all_applied(files, rotation(len)).dom().contains(m) == files.dom().contains(n));
        }
    }
}

/// The names of the logs all differ.
pub proof fn older_logs_have_names_of_their_own(m: u32, n: u32)
    requires
        m != n,
    ensures
        sibling_name(m) != sibling_name(n),
        begins(sibling_name(n), "zaprust."@),
        crate::text::ends(sibling_name(n), ".log"@),
{
    reveal_strlit("zaprust.");
    reveal_strlit(".log");
    crate::text::lemma_decimal(m as nat);
    crate::text::lemma_decimal(n as nat);
    let a = sibling_name(m);
    let b = sibling_name(n);
    assert(a.subrange(8, a.len() - 4) =~= decimal(m as nat));
    assert(b.subrange(8, b.len() - 4) =~= decimal(n as nat));
    assert(b.take(8) =~= "zaprust."@);
    assert(b.skip(b.len() - 4) =~= ".log"@);
}

// ── Time ────────────────────────────────────────────────────────────────────

/// `n` in decimal, with zeros before it up to `width` characters.
pub open spec fn padded(n: nat, width: nat) -> Seq<char> {
    let d = decimal(n);
    if d.len() >= width {
        d
    } else {
        Seq::new((width - d.len()) as nat, |i: int| '0') + d
    }
}

/// `n` in decimal, with zeros before it up to `width` characters.
pub fn pad(n: u16, width: usize) -> (r: String)
    ensures
        r@ == padded(n as nat, width as nat),
{
    let d = decimal_text(n as u64);
    let len: usize = d.as_str().unicode_len();
    if len >= width {
        return d;
    }
    let mut s = String::new();
    let mut i: usize = 0;
    while i < width - len
        invariant
            len < width,
            i <= width - len,
            s@ == Seq::new(i as nat, |k: int| '0'),
        decreases width - len - i,
    {
        s.push('0');
        i += 1;
        assert(s@ =~= Seq::new(i as nat, |k: int| '0'));
    }
    s.append(d.as_str());
    s
}

/// A moment of local time.
#[derive(Clone, Copy, Debug, PartialEq, Eq, Structural)]
pub struct Moment {
    pub year: u16,
    pub month: u16,
    pub day: u16,
    pub hour: u16,
    pub minute: u16,
    pub second: u16,
    pub millis: u16,
}

/// A moment as it stands in the log.
pub open spec fn stamp(t: Moment) -> Seq<char> {
    padded(t.year as nat, 4) + "-"@ + padded(t.month as nat, 2) + "-"@ + padded(t.day as nat, 2)
        + " "@ + padded(t.hour as nat, 2) + ":"@ + padded(t.minute as nat, 2) + ":"@ + padded(
        t.second as nat,
        2,
    ) + "."@ + padded(t.millis as nat, 3)
}

proof fn lemma_padded(n: nat, width: nat)
    ensures
        !padded(n, width).contains(']'),
{
    crate::text::lemma_decimal(n);
}

proof fn lemma_stamp(t: Moment)
    ensures
        forall|i: int| 0 <= i < stamp(t).len() ==> stamp(t)[i] != ']',
{
    reveal_strlit("-");
    reveal_strlit(" ");
    reveal_strlit(":");
    reveal_strlit(".");
    lemma_padded(t.year as nat, 4);
    lemma_padded(t.month as nat, 2);
    lemma_padded(t.day as nat, 2);
    lemma_padded(t.hour as nat, 2);
    lemma_padded(t.minute as nat, 2);
    lemma_padded(t.second as nat, 2);
    lemma_padded(t.millis as nat, 3);
    let a = padded(t.year as nat, 4) + "-"@ + padded(t.month as nat, 2) + "-"@ + padded(
        t.day as nat,
        2,
    ) + " "@;
    assert(!a.contains(']'));
    let b = a + padded(t.hour as nat, 2) + ":"@ + padded(t.minute as nat, 2) + ":"@;
    assert(!b.contains(']'));
    let c = b + padded(t.second as nat, 2) + "."@ + padded(t.millis as nat, 3);
    assert(!c.contains(']'));
    assert(c =~= stamp(t));
    assert forall|i: int| 0 <= i < stamp(t).len() implies stamp(t)[i] != ']' by {
        assert(c[i] == stamp(t)[i]);
    }
}

/// A moment as it stands in the log.
pub fn now(t: Moment) -> (r: String)
    ensures
        r@ == stamp(t),
{
    let mut s = pad(t.year, 4);
    s.append("-");
    s.append(pad(t.month, 2).as_str());
    s.append("-");
    s.append(pad(t.day, 2).as_str());
    s.append(" ");
    s.append(pad(t.hour, 2).as_str());
    s.append(":");
    s.append(pad(t.minute, 2).as_str());
    s.append(":");
    s.append(pad(t.second, 2).as_str());
    s.append(".");
    s.append(pad(t.millis, 3).as_str());
    s
}

/// The message of a panic: where it happened, what it said, and the call stack.
pub fn panic_text(location: Option<&str>, message: Option<&str>, backtrace: &str) -> (r: String)
    ensures
        r@ == "PANIC at "@ + (match location {
            Some(l) => l@,
            None => "?"@,
        }) + ": "@ + (match message {
            Some(m) => m@,
            None => "<no message>"@,
        }) + "\n"@ + backtrace@,
{
    let loc = match location {
        Some(l) => l,
        None => "?",
    };
    let msg = match message {
        Some(m) => m,
        None => "<no message>",
    };
    let mut s = cat3("PANIC at ", loc, ": ");
    s.append(msg);
    s.append("\n");
    s.append(backtrace);
    s
}

// ── What holds of all entries ───────────────────────────────────────────────

/// Without a log nothing is written. A log writes errors, warnings and notices, and debug
/// messages only where they are let through; whatever it writes at one level, it writes at
/// every graver one.
pub proof fn grave_messages_are_written(
    l: Logger,
    now: Seq<char>,
    a: Level,
    b: Level,
    component: Seq<char>,
    msg: Seq<char>,
)
    ensures
        entry(None, now, a, component, msg) is None,
        l.min == Level::Info || l.min == Level::Debug ==> {
            &&& entry(Some(l), now, Level::Error, component, msg) is Some
            &&& entry(Some(l), now, Level::Warn, component, msg) is Some
            &&& entry(Some(l), now, Level::Info, component, msg) is Some
            &&& entry(Some(l), now, Level::Debug, component, msg) is Some <==> l.min == Level::Debug
        },
        entry(Some(l), now, b, component, msg) is Some && a.rank() <= b.rank() ==> entry(
            Some(l),
            now,
            a,
            component,
            msg,
        ) is Some,
        Level::Error.rank() < Level::Warn.rank() < Level::Info.rank() < Level::Debug.rank(),
{
}

/// An entry ends with the message and its component, word for word where the message is one
/// line, and begins with the time; the role and the process stand between them.
pub proof fn entries_hold_their_message(
    now: Seq<char>,
    level: Level,
    role: Seq<char>,
    pid: u32,
    component: Seq<char>,
    msg: Seq<char>,
)
    ensures
        begins(line_of(now, level, role, pid, component, msg), "["@ + now + "] ["@ + level.name()
            + "] ["@ + role + ":"@),
        !msg.contains('\n') ==> crate::text::ends(
            line_of(now, level, role, pid, component, msg),
            ":"@ + decimal(pid as nat) + "] ["@ + component + "] "@ + msg + "\n"@,
        ),
        level.name() == "ERROR"@ <==> level is Error,
        level.name() == "WARN"@ <==> level is Warn,
        level.name() == "INFO"@ <==> level is Info,
        level.name() == "DEBUG"@ <==> level is Debug,
{
    reveal_strlit("\n");
    reveal_strlit("ERROR");
    reveal_strlit("WARN");
    reveal_strlit("INFO");
    reveal_strlit("DEBUG");
    assert("ERROR"@[0] == 'E' && "WARN"@[0] == 'W' && "INFO"@[0] == 'I' && "DEBUG"@[0] == 'D');
    assert("\n"@ =~= seq!['\n']);
    let line = line_of(now, level, role, pid, component, msg);
    let front = "["@ + now + "] ["@ + level.name() + "] ["@ + role;
    let said = "] ["@ + component + "] "@ + replaced(msg, "\n"@, " | "@) + "\n"@;
    let back = ":"@ + decimal(pid as nat) + said;
    assert(line =~= front + back);
    assert(line.take((front + ":"@).len() as int) =~= front + ":"@);
    if !msg.contains('\n') {
        lemma_no_char(msg, '\n');
        crate::text::replacing_what_is_absent(msg, "\n"@, " | "@);
        let end = ":"@ + decimal(pid as nat) + "] ["@ + component + "] "@ + msg + "\n"@;
        assert(end =~= back);
        assert(line.skip(line.len() - end.len()) =~= end);
    }
}

/// The problems of a log come in the order of their lines, and each as often as it stands
/// there: those of two parts of a log follow each other.
pub proof fn problems_keep_the_order_of_lines(a: Seq<Seq<char>>, b: Seq<Seq<char>>)
    ensures
        problems(a + b) == problems(a) + problems(b),
        a.len() == 1 ==> problems(a) == (if is_problem(a[0]) {
            a
        } else {
            Seq::<Seq<char>>::empty()
        }),
    decreases b.len(),
{
    reveal_with_fuel(problems, 2);
    if b.len() == 0 {
        assert(a + b =~= a);
        assert(problems(a) + problems(b) =~= problems(a));
    } else {
        problems_keep_the_order_of_lines(a, b.drop_last());
        assert((a + b).drop_last() =~= a + b.drop_last());
        assert((a + b).last() == b.last());
        assert(problems(a + b) =~= problems(a) + problems(b));
    }
    if a.len() == 1 {
        assert(a.drop_last() =~= Seq::empty());
        assert(Seq::<Seq<char>>::empty().push(a[0]) =~= a);
    }
}

proof fn lemma_padded_is(n: nat, width: nat)
    ensures
        padded(n, width).len() >= width,
        crate::text::all_digits(padded(n, width)),
        crate::text::digits_value(padded(n, width)) == n,
        decimal(n).len() <= width ==> padded(n, width).len() == width,
{
    crate::text::lemma_decimal(n);
    let d = decimal(n);
    if d.len() < width {
        let k = (width - d.len()) as nat;
        let z = Seq::new(k, |i: int| '0');
        lemma_zeros(z, d);
        assert forall|i: int| 0 <= i < (z + d).len() implies crate::text::is_digit(
            #[trigger] (z + d)[i],
        ) by {
            if i >= k {
                assert((z + d)[i] == d[i - k]);
            }
        }
    }
}

proof fn lemma_zeros(z: Seq<char>, d: Seq<char>)
    requires
        forall|i: int| 0 <= i < z.len() ==> #[trigger] z[i] == '0',
    ensures
        crate::text::digits_value(z + d) == crate::text::digits_value(d),
    decreases z.len() + d.len(),
{
    let s = z + d;
    if d.len() > 0 {
        lemma_zeros(z, d.drop_last());
        assert(s.drop_last() =~= z + d.drop_last());
        assert(s.last() == d.last());
    } else {
        assert(s =~= z);
        if z.len() > 0 {
            let t = z.drop_last();
            assert forall|i: int| 0 <= i < t.len() implies #[trigger] t[i] == '0' by {
                assert(t[i] == z[i]);
            }
            lemma_zeros(t, d);
            assert(t + d =~= t);
            assert(z.last() == z[z.len() - 1]);
        }
    }
}

proof fn lemma_digits_of(n: nat)
    ensures
        n < 100 ==> decimal(n).len() <= 2,
        n < 1000 ==> decimal(n).len() <= 3,
        n < 10000 ==> decimal(n).len() <= 4,
{
    reveal_with_fuel(decimal, 4);
}

/// The time in the log can be read back: it has 23 characters, and the year, the month, the
/// day, the hour, the minute, the second and the milliseconds stand at their places, each as
/// a number with zeros before it.
pub proof fn times_are_read_back(t: Moment)
    requires
        t.year < 10000,
        t.month < 100,
        t.day < 100,
        t.hour < 100,
        t.minute < 100,
        t.second < 100,
        t.millis < 1000,
    ensures
        stamp(t).len() == 23,
        stamp(t)[4] == '-' && stamp(t)[7] == '-' && stamp(t)[10] == ' ' && stamp(t)[13] == ':'
            && stamp(t)[16] == ':' && stamp(t)[19] == '.',
        crate::text::digits_value(stamp(t).subrange(0, 4)) == t.year,
        crate::text::digits_value(stamp(t).subrange(5, 7)) == t.month,
        crate::text::digits_value(stamp(t).subrange(8, 10)) == t.day,
        crate::text::digits_value(stamp(t).subrange(11, 13)) == t.hour,
        crate::text::digits_value(stamp(t).subrange(14, 16)) == t.minute,
        crate::text::digits_value(stamp(t).subrange(17, 19)) == t.second,
        crate::text::digits_value(stamp(t).subrange(20, 23)) == t.millis,
{
    reveal_strlit("-");
    reveal_strlit(" ");
    reveal_strlit(":");
    reveal_strlit(".");
    lemma_digits_of(t.year as nat);
    lemma_digits_of(t.month as nat);
    lemma_digits_of(t.day as nat);
    lemma_digits_of(t.hour as nat);
    lemma_digits_of(t.minute as nat);
    lemma_digits_of(t.second as nat);
    lemma_digits_of(t.millis as nat);
    lemma_padded_is(t.year as nat, 4);
    lemma_padded_is(t.month as nat, 2);
    lemma_padded_is(t.day as nat, 2);
    lemma_padded_is(t.hour as nat, 2);
    lemma_padded_is(t.minute as nat, 2);
    lemma_padded_is(t.second as nat, 2);
    lemma_padded_is(t.millis as nat, 3);
    let s = stamp(t);
    assert(s.subrange(0, 4) =~= padded(t.year as nat, 4));
    assert(s.subrange(5, 7) =~= padded(t.month as nat, 2));
    assert(s.subrange(8, 10) =~= padded(t.day as nat, 2));
    assert(s.subrange(11, 13) =~= padded(t.hour as nat, 2));
    assert(s.subrange(14, 16) =~= padded(t.minute as nat, 2));
    assert(s.subrange(17, 19) =~= padded(t.second as nat, 2));
    assert(s.subrange(20, 23) =~= padded(t.millis as nat, 3));
}

} // verus!
