//! Reads Flowseal batch files (`general*.bat`) as strategies.
//!
//! A batch file calls `winws.exe` with a long argument string. The engine on Linux is
//! `nfqws`, which has the same desync flags. What differs is settled here:
//!
//! * `--wf-tcp=` and `--wf-udp=` name the traffic to capture. On Linux the firewall does
//!   the capture, so these arguments leave the list and become the ports of the strategy.
//! * `%BIN%`, `%LISTS%` and `%~dp0` become the directory of the core, and the path
//!   separator `\` becomes `/`.
//! * `%GameFilter*%` stays as it is: its value depends on a switch and is put in when the
//!   engine starts.
//!
//! A file that does not look like a strategy gives an error, and the caller skips it.
use vstd::prelude::*;

use crate::order::{sort_by_keys, SortKey};
use crate::strategies::Strategy;
use crate::text::{
    alnum, ascii_lowered, cat, chars_of, digit, from_utf8_lossy, is_alphabetic, occurs, head, join, lines,
    parse_u64, piece, position, replace, same, split_on, starts_with, strip_prefix, strip_suffix,
    tail, to_lowercase, to_uppercase, trim, trim_char, trim_end, trim_start,
    trim_start_char, white,
};

verus! {

use crate::order::{sorted_stably, KeyView, PartView};
use crate::strategies::{views, StrategyView};
use crate::text::{
    after_prefix, alphabetic, before_suffix, begins, capitals, contains, decimal, find, find_from, is_alnum, is_digit,
    is_white, joined, lines_of, lowered, only, opt_str, opt_text, parsed, replaced, small_case, split,
    text_of, texts, trim_by, trim_end_by, trim_start_by, trimmed, whites, word_len, words_of,
};

// ── Lines ───────────────────────────────────────────────────────────────────

/// A comment line: `::`, or the word `rem` in any letter case.
pub open spec fn is_comment(line: Seq<char>) -> bool {
    let t = trim_start_by(line, whites());
    begins(t, "::"@) || lowered(t) == "rem"@ || begins(lowered(t), "rem "@)
}

/// The lines that are no comments.
pub open spec fn without_comments(lines: Seq<Seq<char>>) -> Seq<Seq<char>>
    decreases lines.len(),
{
    if lines.len() == 0 {
        Seq::empty()
    } else if is_comment(lines.last()) {
        without_comments(lines.drop_last())
    } else {
        without_comments(lines.drop_last()).push(lines.last())
    }
}

/// Joins lines that a `^` at their end continues. `acc` is what the lines before the
/// first one of `lines` have left open.
pub open spec fn glued(lines: Seq<Seq<char>>, acc: Seq<char>) -> Seq<Seq<char>>
    decreases lines.len(),
{
    if lines.len() == 0 {
        if acc.len() == 0 {
            Seq::empty()
        } else {
            seq![acc]
        }
    } else {
        let t = trim_end_by(lines[0], whites());
        match before_suffix(t, "^"@) {
            Some(b) => glued(lines.skip(1), (acc + b).push(' ')),
            None => seq![acc + t] + glued(lines.skip(1), Seq::empty()),
        }
    }
}

/// The logical lines of a batch file: no comments, continued lines joined.
pub open spec fn logical_lines(text: Seq<char>) -> Seq<Seq<char>> {
    glued(without_comments(lines_of(text)), Seq::empty())
}

/// Drops the comment lines (`rem`, `::`).
pub fn strip_comments(text: &str) -> (r: Vec<String>)
    ensures
        texts(r@) == without_comments(lines_of(text@)),
{
    let all = lines(text);
    let ghost ls = texts(all@);
    let mut out: Vec<String> = Vec::new();
    let mut i: usize = 0;
    assert(ls.take(0) =~= Seq::<Seq<char>>::empty());
    while i < all.len()
        invariant
            i <= all@.len(),
            ls == texts(all@),
            texts(out@) == without_comments(ls.take(i as int)),
        decreases all@.len() - i,
    {
        let line = all[i].as_str();
        let t = trim_start(line);
        let small = ascii_lowered(t);
        let comment = starts_with(t, "::") || same(small.as_str(), "rem") || starts_with(
            small.as_str(),
            "rem ",
        );
        let ghost before = texts(out@);
        proof {
            assert(ls.take(i + 1).drop_last() =~= ls.take(i as int));
            assert(ls.take(i + 1).last() == line@);
        }
        if !comment {
            out.push(line.to_owned());
            assert(texts(out@) =~= before.push(line@));
        }
        i += 1;
    }
    assert(ls.take(ls.len() as int) =~= ls);
    out
}

/// Joins lines that a `^` at their end continues.
pub fn join_continuations(lines: &[String]) -> (r: Vec<String>)
    ensures
        texts(r@) == glued(texts(lines@), Seq::empty()),
{
    let ghost ls = texts(lines@);
    let mut out: Vec<String> = Vec::new();
    let mut acc = String::new();
    let mut pending = false;
    let mut i: usize = 0;
    proof {
        assert(ls.skip(0) =~= ls);
        assert(texts(out@) + glued(ls, Seq::empty()) =~= glued(ls, Seq::empty()));
        assert(acc@ =~= Seq::<char>::empty());
    }
    while i < lines.len()
        invariant
            i <= lines@.len(),
            ls == texts(lines@),
            pending == (acc@.len() > 0),
            glued(ls, Seq::empty()) == texts(out@) + glued(ls.skip(i as int), acc@),
        decreases lines@.len() - i,
    {
        let trimmed = trim_end(lines[i].as_str());
        let ghost before = texts(out@);
        let ghost acc0 = acc@;
        assert(ls.skip(i as int).skip(1) =~= ls.skip(i + 1));
        match strip_suffix(trimmed, "^") {
            Some(stripped) => {
                acc.append(stripped);
                acc.push(' ');
                pending = true;
            },
            None => {
                acc.append(trimmed);
                out.push(acc);
                acc = String::new();
                pending = false;
                proof {
                    let rest = glued(ls.skip(i + 1), Seq::empty());
                    assert(acc@ =~= Seq::<char>::empty());
                    assert(texts(out@) =~= before.push(acc0 + trimmed@));
                    assert(before + (seq![acc0 + trimmed@] + rest) =~= texts(out@) + rest);
                }
            },
        }
        i += 1;
    }
    let ghost before = texts(out@);
    if pending && !acc.as_str().is_empty() {
        out.push(acc);
        assert(texts(out@) =~= before + seq![acc@]);
    } else {
        assert(texts(out@) =~= before + Seq::<Seq<char>>::empty());
    }
    out
}

// ── Variables ───────────────────────────────────────────────────────────────

/// What `set NAME=VALUE` or `set "NAME=VALUE"` sets: the name and the value. Nothing for
/// another line, for one without `=` and for one with an empty name.
pub open spec fn setting(line: Seq<char>) -> Option<(Seq<char>, Seq<char>)> {
    let t = trimmed(line);
    if !begins(lowered(t), "set "@) {
        None
    } else {
        let rest = trimmed(t.skip(4));
        let body = match after_prefix(rest, "\""@) {
            Some(r) => match before_suffix(r, "\""@) {
                Some(inner) => trimmed(inner),
                None => rest,
            },
            None => rest,
        };
        match find(body, "="@) {
            None => None,
            Some(eq) => {
                let name = trimmed(body.take(eq));
                if name.len() == 0 {
                    None
                } else {
                    Some((name, trim_by(trimmed(body.skip(eq + 1)), only('"'))))
                }
            },
        }
    }
}

/// Reads `set NAME=VALUE` (or `set "NAME=VALUE"`).
pub fn parse_set(line: &str) -> (r: Option<(String, String)>)
    ensures
        match r {
            Some(p) => setting(line@) == Some((p.0@, p.1@)),
            None => setting(line@) is None,
        },
{
    let t = trim(line);
    let small = ascii_lowered(t);
    if !starts_with(small.as_str(), "set ") {
        return None;
    }
    proof {
        reveal_strlit("set ");
        reveal_strlit("=");
    }
    let mut rest = trim(tail(t, 4));
    match strip_prefix(rest, "\"") {
        Some(r) => {
            match strip_suffix(r, "\"") {
                Some(inner) => {
                    rest = trim(inner);
                },
                None => {},
            }
        },
        None => {},
    }
    match position(rest, "=") {
        None => None,
        Some(eq) => {
            let name = trim(head(rest, eq));
            if name.is_empty() {
                return None;
            }
            let value = trim_char(trim(tail(rest, eq + 1)), '"');
            Some((name.to_owned(), value.to_owned()))
        },
    }
}

/// Batch variables: names in capital letters, and their values. A later value of the
/// same name replaces an earlier one.
pub struct Vars {
    pairs: Vec<(String, String)>,
}

/// The map that a list of assignments leaves.
pub closed spec fn assignments(pairs: Seq<(String, String)>) -> Map<Seq<char>, Seq<char>>
    decreases pairs.len(),
{
    if pairs.len() == 0 {
        Map::empty()
    } else {
        assignments(pairs.drop_last()).insert(pairs.last().0@, pairs.last().1@)
    }
}

impl View for Vars {
    type V = Map<Seq<char>, Seq<char>>;

    closed spec fn view(&self) -> Map<Seq<char>, Seq<char>> {
        assignments(self.pairs@)
    }
}

impl Vars {
    /// No variables.
    pub fn new() -> (r: Vars)
        ensures
            r@ == Map::<Seq<char>, Seq<char>>::empty(),
    {
        Vars { pairs: Vec::new() }
    }

    /// Sets a variable.
    pub fn insert(&mut self, name: String, value: String)
        ensures
            final(self)@ == old(self)@.insert(name@, value@),
    {
        let ghost before = self.pairs@;
        self.pairs.push((name, value));
        assert(self.pairs@.drop_last() =~= before);
    }

    /// The value of a variable.
    pub fn get(&self, name: &str) -> (r: Option<&String>)
        ensures
            match r {
                Some(v) => self@.dom().contains(name@) && self@[name@] == v@,
                None => !self@.dom().contains(name@),
            },
    {
        let mut i: usize = self.pairs.len();
        assert(self.pairs@.take(i as int) =~= self.pairs@);
        while i > 0
            invariant
                i <= self.pairs@.len(),
                assignments(self.pairs@).dom().contains(name@) == assignments(
                    self.pairs@.take(i as int),
                ).dom().contains(name@),
                assignments(self.pairs@)[name@] == assignments(self.pairs@.take(i as int))[name@],
            decreases i,
        {
            i -= 1;
            assert(self.pairs@.take(i + 1).drop_last() =~= self.pairs@.take(i as int));
            if same(self.pairs[i].0.as_str(), name) {
                return Some(&self.pairs[i].1);
            }
        }
        None
    }
}

/// The variables that a list of logical lines sets, with `%~dp0` put as `dp0`.
pub open spec fn bindings(lines: Seq<Seq<char>>, dp0: Seq<char>) -> Map<Seq<char>, Seq<char>>
    decreases lines.len(),
{
    if lines.len() == 0 {
        Map::empty()
    } else {
        let before = bindings(lines.drop_last(), dp0);
        match setting(lines.last()) {
            Some(kv) => before.insert(capitals(kv.0), replaced(kv.1, "%~dp0"@, dp0)),
            None => before,
        }
    }
}

/// The variables that `lines` set, with `%~dp0` put as `dp0`.
pub fn collect_vars(lines: &[String], dp0: &str) -> (r: Vars)
    ensures
        r@ == bindings(texts(lines@), dp0@),
{
    let ghost ls = texts(lines@);
    let mut vars = Vars::new();
    let mut i: usize = 0;
    proof {
        reveal_strlit("%~dp0");
        assert(ls.take(0) =~= Seq::<Seq<char>>::empty());
    }
    while i < lines.len()
        invariant
            i <= lines@.len(),
            ls == texts(lines@),
            "%~dp0"@.len() > 0,
            vars@ == bindings(ls.take(i as int), dp0@),
        decreases lines@.len() - i,
    {
        proof {
            assert(ls.take(i + 1).drop_last() =~= ls.take(i as int));
            assert(ls.take(i + 1).last() == lines@[i as int]@);
        }
        match parse_set(lines[i].as_str()) {
            Some(kv) => {
                vars.insert(to_uppercase(kv.0.as_str()), replace(kv.1.as_str(), "%~dp0", dp0));
            },
            None => {},
        }
        i += 1;
    }
    assert(ls.take(ls.len() as int) =~= ls);
    vars
}

/// The position of the first `%` of `s` behind its first character.
pub open spec fn closing(s: Seq<char>) -> Option<int> {
    find_from(s, "%"@, 1)
}

/// One pass of substitution from the left: `%NAME%` becomes the value of the variable
/// and is kept where there is none.
pub open spec fn substituted(s: Seq<char>, vars: Map<Seq<char>, Seq<char>>) -> Seq<char>
    decreases s.len(),
    via substituted_shrinks
{
    if s.len() == 0 {
        Seq::empty()
    } else if s[0] == '%' && closing(s) is Some {
        let j = closing(s)->0;
        let name = capitals(s.subrange(1, j));
        let head = if vars.dom().contains(name) {
            vars[name]
        } else {
            s.take(j + 1)
        };
        head + substituted(s.skip(j + 1), vars)
    } else {
        seq![s[0]] + substituted(s.skip(1), vars)
    }
}

#[via_fn]
proof fn substituted_shrinks(s: Seq<char>, vars: Map<Seq<char>, Seq<char>>) {
    reveal_strlit("%");
    crate::text::lemma_find_from(s, "%"@, 1);
}

/// Whether one pass of substitution puts in any value.
pub open spec fn substitutes(s: Seq<char>, vars: Map<Seq<char>, Seq<char>>) -> bool
    decreases s.len(),
    via substitutes_shrinks
{
    if s.len() == 0 {
        false
    } else if s[0] == '%' && closing(s) is Some {
        let j = closing(s)->0;
        vars.dom().contains(capitals(s.subrange(1, j))) || substitutes(s.skip(j + 1), vars)
    } else {
        substitutes(s.skip(1), vars)
    }
}

#[via_fn]
proof fn substitutes_shrinks(s: Seq<char>, vars: Map<Seq<char>, Seq<char>>) {
    reveal_strlit("%");
    crate::text::lemma_find_from(s, "%"@, 1);
}

/// `s` after as many passes of substitution as put in a value, and at most `passes`.
pub open spec fn expanded(
    s: Seq<char>,
    vars: Map<Seq<char>, Seq<char>>,
    passes: nat,
) -> Seq<char>
    decreases passes,
{
    if passes == 0 || !substitutes(s, vars) {
        s
    } else {
        expanded(substituted(s, vars), vars, (passes - 1) as nat)
    }
}

/// A pass of substitution that puts in no value leaves the text as it is.
pub proof fn idle_pass_changes_nothing(s: Seq<char>, vars: Map<Seq<char>, Seq<char>>)
    requires
        !substitutes(s, vars),
    ensures
        substituted(s, vars) == s,
    decreases s.len(),
{
    if s.len() == 0 {
        assert(substituted(s, vars) =~= s);
    } else if s[0] == '%' && closing(s) is Some {
        let j = closing(s)->0;
        reveal_strlit("%");
        crate::text::lemma_find_from(s, "%"@, 1);
        idle_pass_changes_nothing(s.skip(j + 1), vars);
        assert(s.take(j + 1) + s.skip(j + 1) =~= s);
    } else {
        idle_pass_changes_nothing(s.skip(1), vars);
        assert(seq![s[0]] + s.skip(1) =~= s);
    }
}

/// One pass of substitution, and whether it put in any value.
pub fn expand_once(s: &str, vars: &Vars) -> (r: (String, bool))
    ensures
        r.0@ == substituted(s@, vars@),
        r.1 == substitutes(s@, vars@),
{
    let chars = chars_of(s);
    let percent = chars_of("%");
    let n: usize = chars.len();
    let mut out = String::new();
    let mut changed = false;
    let mut i: usize = 0;
    proof {
        reveal_strlit("%");
        assert(s@.skip(0) =~= s@);
    }
    while i < n
        invariant
            i <= n,
            n == chars@.len(),
            chars@ == s@,
            percent@ == "%"@,
            "%"@.len() == 1,
            substituted(s@, vars@) == out@ + substituted(s@.skip(i as int), vars@),
            substitutes(s@, vars@) == (changed || substitutes(s@.skip(i as int), vars@)),
        decreases n - i,
    {
        let ghost rest = s@.skip(i as int);
        let ghost before = out@;
        if chars[i] == '%' {
            let found = crate::text::position_from(&chars, &percent, i + 1);
            proof {
                crate::text::lemma_find_from(s@, "%"@, i + 1);
                lemma_closing(s@, i as int);
            }
            match found {
                Some(j) => {
                    let name = to_uppercase(piece(&chars, i + 1, j).as_str());
                    proof {
                        assert(rest.subrange(1, j - i) =~= s@.subrange(i + 1, j as int));
                        assert(rest.skip(j - i + 1) =~= s@.skip(j + 1));
                        assert(rest.take(j - i + 1) =~= s@.subrange(i as int, j + 1));
                    }
                    match vars.get(name.as_str()) {
                        Some(val) => {
                            out.append(val.as_str());
                            changed = true;
                        },
                        None => {
                            out.append(piece(&chars, i, j + 1).as_str());
                        },
                    }
                    proof {
                        let next = substituted(s@.skip(j + 1), vars@);
                        let mid = out@.skip(before.len() as int);
                        assert(out@ =~= before + mid);
                        assert(before + (mid + next) =~= out@ + next);
                        if vars@.dom().contains(name@) {
                            assert(mid =~= vars@[name@]);
                        } else {
                            assert(mid =~= s@.subrange(i as int, j + 1));
                        }
                    }
                    i = j + 1;
                    continue ;
                },
                None => {},
            }
        }
        out.push(chars[i]);
        proof {
            let next = substituted(s@.skip(i + 1), vars@);
            assert(rest.skip(1) =~= s@.skip(i + 1));
            assert(before + (seq![rest[0]] + next) =~= out@ + next);
        }
        i += 1;
    }
    assert(out@ + Seq::<char>::empty() =~= out@);
    (out, changed)
}

proof fn lemma_closing(s: Seq<char>, i: int)
    requires
        0 <= i < s.len(),
    ensures
        find_from(s, "%"@, i + 1) is None <==> closing(s.skip(i)) is None,
        find_from(s, "%"@, i + 1) matches Some(j) ==> closing(s.skip(i)) == Some(j - i),
{
    let t = s.skip(i);
    crate::text::lemma_find_skip(s, "%"@, i + 1);
    crate::text::lemma_find_skip(t, "%"@, 1);
    assert(t.skip(1) =~= s.skip(i + 1));
}

/// Puts in the values of the variables, over several passes for values that refer to
/// variables in turn. An unknown `%NAME%` (such as `%GameFilter%`) stays.
pub fn expand_vars(input: &str, vars: &Vars) -> (r: String)
    ensures
        r@ == expanded(input@, vars@, 10),
{
    let mut cur = input.to_owned();
    let mut left: u8 = 10;
    while left > 0
        invariant
            left <= 10,
            expanded(input@, vars@, 10) == expanded(cur@, vars@, left as nat),
        decreases left,
    {
        let (next, changed) = expand_once(cur.as_str(), vars);
        if !changed {
            proof {
                idle_pass_changes_nothing(cur@, vars@);
            }
            return next;
        }
        cur = next;
        left -= 1;
    }
    cur
}

// ── Arguments ───────────────────────────────────────────────────────────────

/// Everything behind the token `winws.exe`, in any letter case, without the quotation
/// mark that closes the path of the program.
pub open spec fn args_after_winws(line: Seq<char>) -> Seq<char> {
    match find(lowered(line), "winws.exe"@) {
        Some(p) => trimmed(
            trim_start_by(trim_start_by(line.skip(p + 9), whites()), only('"')),
        ),
        None => Seq::empty(),
    }
}

/// Everything behind the token `winws.exe` as an argument string.
pub fn extract_args_after_winws(line: &str) -> (r: String)
    ensures
        r@ == args_after_winws(line@),
{
    let small = ascii_lowered(line);
    proof {
        reveal_strlit("winws.exe");
    }
    match position(small.as_str(), "winws.exe") {
        Some(pos) => {
            let after = tail(line, pos + 9);
            trim(trim_start_char(trim_start(after), '"')).to_owned()
        },
        None => {
            let r = String::new();
            assert(r@ =~= Seq::<char>::empty());
            r
        },
    }
}

/// The arguments of `s`: white space separates them, except between quotation marks,
/// which themselves are left out. `cur` is the argument that is being read, `quoted`
/// whether a quotation mark is open, `started` whether an argument has begun.
pub open spec fn arguments(
    s: Seq<char>,
    cur: Seq<char>,
    quoted: bool,
    started: bool,
) -> Seq<Seq<char>>
    decreases s.len(),
{
    if s.len() == 0 {
        if started {
            seq![cur]
        } else {
            Seq::empty()
        }
    } else if s[0] == '"' {
        arguments(s.skip(1), cur, !quoted, true)
    } else if is_white(s[0]) && !quoted {
        if started {
            seq![cur] + arguments(s.skip(1), Seq::empty(), false, false)
        } else {
            arguments(s.skip(1), cur, false, false)
        }
    } else {
        arguments(s.skip(1), cur.push(s[0]), quoted, true)
    }
}

/// Splits an argument string, with regard to quotation marks.
pub fn split_args(s: &str) -> (r: Vec<String>)
    ensures
        texts(r@) == arguments(s@, Seq::empty(), false, false),
{
    let chars = chars_of(s);
    let mut out: Vec<String> = Vec::new();
    let mut cur = String::new();
    let mut in_quote = false;
    let mut has_token = false;
    let mut i: usize = 0;
    let ghost all = arguments(s@, Seq::empty(), false, false);
    proof {
        assert(s@.skip(0) =~= s@);
        assert(cur@ =~= Seq::<char>::empty());
        assert(texts(out@) + all =~= all);
    }
    while i < chars.len()
        invariant
            i <= chars@.len(),
            chars@ == s@,
            all == texts(out@) + arguments(s@.skip(i as int), cur@, in_quote, has_token),
        decreases chars@.len() - i,
    {
        let c = chars[i];
        let ghost before = texts(out@);
        let ghost cur0 = cur@;
        assert(s@.skip(i as int).skip(1) =~= s@.skip(i + 1));
        if c == '"' {
            in_quote = !in_quote;
            has_token = true;
        } else if white(c) && !in_quote {
            if has_token {
                out.push(cur);
                cur = String::new();
                has_token = false;
                proof {
                    let rest = arguments(s@.skip(i + 1), Seq::empty(), false, false);
                    assert(cur@ =~= Seq::<char>::empty());
                    assert(texts(out@) =~= before.push(cur0));
                    assert(before + (seq![cur0] + rest) =~= texts(out@) + rest);
                }
            }
        } else {
            cur.push(c);
            has_token = true;
        }
        i += 1;
    }
    let ghost before = texts(out@);
    if has_token {
        out.push(cur);
        assert(texts(out@) =~= before + seq![cur@]);
    } else {
        assert(texts(out@) =~= before + Seq::<Seq<char>>::empty());
    }
    out
}

/// The parts of a list, trimmed, without the empty ones.
pub open spec fn tidy(parts: Seq<Seq<char>>) -> Seq<Seq<char>>
    decreases parts.len(),
{
    if parts.len() == 0 {
        Seq::empty()
    } else if trimmed(parts.last()).len() == 0 {
        tidy(parts.drop_last())
    } else {
        tidy(parts.drop_last()).push(trimmed(parts.last()))
    }
}

/// The ports of a comma-separated list.
pub open spec fn ports(v: Seq<char>) -> Seq<Seq<char>> {
    tidy(split(v, ','))
}

/// Splits a list of ports at the commas, without empty tokens.
pub fn split_ports(v: &str) -> (r: Vec<String>)
    ensures
        texts(r@) == ports(v@),
{
    let parts = split_on(v, ',');
    let ghost ps = texts(parts@);
    let mut out: Vec<String> = Vec::new();
    let mut i: usize = 0;
    assert(ps.take(0) =~= Seq::<Seq<char>>::empty());
    while i < parts.len()
        invariant
            i <= parts@.len(),
            ps == texts(parts@),
            texts(out@) == tidy(ps.take(i as int)),
        decreases parts@.len() - i,
    {
        let t = trim(parts[i].as_str());
        let ghost before = texts(out@);
        proof {
            assert(ps.take(i + 1).drop_last() =~= ps.take(i as int));
            assert(ps.take(i + 1).last() == parts@[i as int]@);
        }
        if !t.is_empty() {
            out.push(t.to_owned());
            assert(texts(out@) =~= before.push(t@));
        }
        i += 1;
    }
    assert(ps.take(ps.len() as int) =~= ps);
    out
}

/// The ports of the last token that begins with `flag`; none without such a token.
pub open spec fn flagged_ports(tokens: Seq<Seq<char>>, flag: Seq<char>) -> Seq<Seq<char>>
    decreases tokens.len(),
{
    if tokens.len() == 0 {
        Seq::empty()
    } else {
        match after_prefix(tokens.last(), flag) {
            Some(v) => ports(v),
            None => flagged_ports(tokens.drop_last(), flag),
        }
    }
}

/// The tokens that name no ports to capture, with `/` for `\`.
pub open spec fn engine_args(tokens: Seq<Seq<char>>) -> Seq<Seq<char>>
    decreases tokens.len(),
{
    if tokens.len() == 0 {
        Seq::empty()
    } else {
        let before = engine_args(tokens.drop_last());
        if begins(tokens.last(), "--wf-tcp="@) || begins(tokens.last(), "--wf-udp="@) {
            before
        } else {
            before.push(replaced(tokens.last(), "\\"@, "/"@))
        }
    }
}

/// The arguments of the engine and the ports to capture.
pub struct Parted {
    pub args: Vec<String>,
    pub wf_tcp: Vec<String>,
    pub wf_udp: Vec<String>,
}

/// Parts the tokens: `--wf-tcp=` and `--wf-udp=` give the ports to capture, the others
/// stay arguments, with `/` for `\`.
pub fn part_tokens(tokens: &[String]) -> (r: Parted)
    ensures
        texts(r.args@) == engine_args(texts(tokens@)),
        texts(r.wf_tcp@) == flagged_ports(texts(tokens@), "--wf-tcp="@),
        texts(r.wf_udp@) == flagged_ports(texts(tokens@), "--wf-udp="@),
{
    let ghost ts = texts(tokens@);
    let mut wf_tcp: Vec<String> = Vec::new();
    let mut wf_udp: Vec<String> = Vec::new();
    let mut args: Vec<String> = Vec::new();
    let mut i: usize = 0;
    proof {
        reveal_strlit("\\");
        reveal_strlit("--wf-tcp=");
        reveal_strlit("--wf-udp=");
        assert(ts.take(0) =~= Seq::<Seq<char>>::empty());
        assert(texts(args@) =~= Seq::<Seq<char>>::empty());
    }
    while i < tokens.len()
        invariant
            i <= tokens@.len(),
            ts == texts(tokens@),
            "\\"@.len() == 1,
            "--wf-tcp="@.len() == 9,
            "--wf-udp="@.len() == 9,
            "--wf-tcp="@[5] == 't',
            "--wf-udp="@[5] == 'u',
            texts(args@) == engine_args(ts.take(i as int)),
            texts(wf_tcp@) == flagged_ports(ts.take(i as int), "--wf-tcp="@),
            texts(wf_udp@) == flagged_ports(ts.take(i as int), "--wf-udp="@),
        decreases tokens@.len() - i,
    {
        let t = tokens[i].as_str();
        let ghost before = texts(args@);
        proof {
            assert(ts.take(i + 1).drop_last() =~= ts.take(i as int));
            assert(ts.take(i + 1).last() == t@);
            if begins(t@, "--wf-tcp="@) && begins(t@, "--wf-udp="@) {
                assert(t@.take(9)[5] == 't');
            }
        }
        match strip_prefix(t, "--wf-tcp=") {
            Some(v) => {
                wf_tcp = split_ports(v);
            },
            None => {
                match strip_prefix(t, "--wf-udp=") {
                    Some(v) => {
                        wf_udp = split_ports(v);
                    },
                    None => {
                        args.push(replace(t, "\\", "/"));
                        assert(texts(args@) =~= before.push(replaced(t@, "\\"@, "/"@)));
                    },
                }
            },
        }
        i += 1;
    }
    assert(ts.take(ts.len() as int) =~= ts);
    Parted { args, wf_tcp, wf_udp }
}

/// No argument of the engine holds a `\\` or begins with `--wf-tcp=` or `--wf-udp=`: the
/// paths are written with `/`, and the ports to capture have left the list.
pub proof fn engine_args_are_clean(tokens: Seq<Seq<char>>)
    ensures
        forall|i: int|
            0 <= i < engine_args(tokens).len() ==> {
                let a = #[trigger] engine_args(tokens)[i];
                !a.contains('\\') && !begins(a, "--wf-tcp="@) && !begins(a, "--wf-udp="@)
            },
    decreases tokens.len(),
{
    if tokens.len() > 0 {
        let before = engine_args(tokens.drop_last());
        engine_args_are_clean(tokens.drop_last());
        assert forall|i: int| 0 <= i < before.len() implies engine_args(tokens)[i] == #[trigger] before[i] by {}
        let t = tokens.last();
        if !begins(t, "--wf-tcp="@) && !begins(t, "--wf-udp="@) {
            reveal_strlit("\\");
            reveal_strlit("/");
            assert("\\"@ =~= seq!['\\']);
            assert("/"@ =~= seq!['/']);
            crate::text::replacing_a_char_maps_it(t, '\\', '/');
            let a = replaced(t, "\\"@, "/"@);
            assert(!a.contains('\\'));
            reveal_strlit("--wf-tcp=");
            reveal_strlit("--wf-udp=");
            lemma_prefix_survives(t, a, "--wf-tcp="@);
            lemma_prefix_survives(t, a, "--wf-udp="@);
        }
    }
}

proof fn lemma_prefix_survives(t: Seq<char>, a: Seq<char>, flag: Seq<char>)
    requires
        a.len() == t.len(),
        forall|i: int| 0 <= i < t.len() ==> #[trigger] a[i] == t[i] || a[i] == '/',
        forall|i: int| 0 <= i < flag.len() ==> #[trigger] flag[i] != '/',
    ensures
        begins(a, flag) ==> begins(t, flag),
{
    if begins(a, flag) {
        let n = flag.len() as int;
        assert forall|i: int| 0 <= i < n implies t.take(n)[i] == flag[i] by {
            assert(a.take(n)[i] == flag[i]);
            assert(a[i] == flag[i]);
        }
        assert(t.take(n) =~= flag);
    }
}

/// Without quotation marks the arguments are the words.
pub proof fn arguments_without_quotes_are_words(s: Seq<char>)
    requires
        !s.contains('"'),
    ensures
        arguments(s, Seq::empty(), false, false) == words_of(s),
    decreases s.len(),
{
    let t = trim_start_by(s, whites());
    lemma_arguments_skip_white(s);
    crate::text::lemma_trim_start_fact(s, whites());
    assert(!t.contains('"'));
    if t.len() == 0 {
        assert(arguments(t, Seq::empty(), false, false) =~= Seq::empty());
    } else {
        crate::text::lemma_word_len(t);
        let k = word_len(t) as int;
        assert(t[0] != '"');
        lemma_argument_read(t.skip(1), Seq::<char>::empty().push(t[0]));
        assert(k == 1 + word_len(t.skip(1)));
        assert(Seq::<char>::empty().push(t[0]) + t.skip(1).take(k - 1) =~= t.take(k));
        assert(t.skip(1).skip(k - 1) =~= t.skip(k));
        arguments_without_quotes_are_words(t.skip(k));
    }
}

/// A text between quotation marks.
pub open spec fn in_quotes(s: Seq<char>) -> Seq<char> {
    seq!['"'] + s + seq!['"']
}

/// Texts, each between quotation marks, with single spaces between them.
pub open spec fn quoted_line(parts: Seq<Seq<char>>) -> Seq<char> {
    joined(Seq::new(parts.len(), |i: int| in_quotes(parts[i])), " "@)
}

/// What is quoted comes back: texts without quotation marks, each put between quotation
/// marks and joined by single spaces, are split into themselves.
pub proof fn quoted_arguments_come_back(parts: Seq<Seq<char>>)
    requires
        forall|i: int| 0 <= i < parts.len() ==> !(#[trigger] parts[i]).contains('"'),
    ensures
        arguments(quoted_line(parts), Seq::empty(), false, false) == parts,
    decreases parts.len(),
{
    let none = Seq::<char>::empty();
    let line = quoted_line(parts);
    let marked = Seq::new(parts.len(), |i: int| in_quotes(parts[i]));
    if parts.len() == 0 {
        assert(arguments(line, none, false, false) =~= parts);
    } else if parts.len() == 1 {
        lemma_argument_quoted(parts[0], none);
        assert(line =~= in_quotes(parts[0]) + none);
        assert(arguments(line, none, false, false) =~= parts);
    } else {
        let rest = parts.skip(1);
        reveal_strlit(" ");
        assert(" "@ =~= seq![' ']);
        crate::text::lemma_joined_first(marked, " "@);
        assert(marked.skip(1) =~= Seq::new(rest.len(), |i: int| in_quotes(rest[i])));
        let more = quoted_line(rest);
        assert(line =~= in_quotes(parts[0]) + (" "@ + more));
        lemma_argument_quoted(parts[0], " "@ + more);
        assert((" "@ + more)[0] == ' ');
        assert((" "@ + more).skip(1) =~= more);
        assert forall|i: int| 0 <= i < rest.len() implies !(#[trigger] rest[i]).contains('"') by {
            assert(rest[i] == parts[i + 1]);
        }
        quoted_arguments_come_back(rest);
        assert(seq![parts[0]] + rest =~= parts);
    }
}

pub(crate) proof fn lemma_argument_quoted(s: Seq<char>, rest: Seq<char>)
    requires
        !s.contains('"'),
    ensures
        arguments(in_quotes(s) + rest, Seq::empty(), false, false) == arguments(
            rest,
            s,
            false,
            true,
        ),
{
    let none = Seq::<char>::empty();
    let all = in_quotes(s) + rest;
    assert(all[0] == '"');
    assert(all.skip(1) =~= s + (seq!['"'] + rest));
    lemma_argument_inside(s, seq!['"'] + rest, none);
    assert(none + s =~= s);
    assert((seq!['"'] + rest).skip(1) =~= rest);
}

proof fn lemma_argument_inside(s: Seq<char>, rest: Seq<char>, cur: Seq<char>)
    requires
        !s.contains('"'),
    ensures
        arguments(s + rest, cur, true, true) == arguments(rest, cur + s, true, true),
    decreases s.len(),
{
    if s.len() == 0 {
        assert(s + rest =~= rest);
        assert(cur + s =~= cur);
    } else {
        assert(s.contains(s[0]));
        assert((s + rest)[0] == s[0]);
        assert((s + rest).skip(1) =~= s.skip(1) + rest);
        assert(!s.skip(1).contains('"')) by {
            if s.skip(1).contains('"') {
                let i = choose|i: int| 0 <= i < s.skip(1).len() && s.skip(1)[i] == '"';
                assert(s[i + 1] == '"');
            }
        }
        lemma_argument_inside(s.skip(1), rest, cur.push(s[0]));
        assert(cur.push(s[0]) + s.skip(1) =~= cur + s);
    }
}

proof fn lemma_arguments_skip_white(s: Seq<char>)
    ensures
        arguments(s, Seq::empty(), false, false) == arguments(
            trim_start_by(s, whites()),
            Seq::empty(),
            false,
            false,
        ),
    decreases s.len(),
{
    if s.len() > 0 && is_white(s[0]) {
        lemma_arguments_skip_white(s.skip(1));
    }
}

proof fn lemma_argument_read(s: Seq<char>, cur: Seq<char>)
    requires
        !s.contains('"'),
    ensures
        arguments(s, cur, false, true) == seq![cur + s.take(word_len(s) as int)] + arguments(
            s.skip(word_len(s) as int),
            Seq::empty(),
            false,
            false,
        ),
    decreases s.len(),
{
    let k = word_len(s) as int;
    crate::text::lemma_word_len(s);
    if s.len() == 0 {
        assert(cur + s.take(k) =~= cur);
        assert(arguments(s, cur, false, true) =~= seq![cur] + Seq::<Seq<char>>::empty());
    } else if is_white(s[0]) {
        assert(cur + s.take(k) =~= cur);
        assert(s.skip(0) =~= s);
        assert(s[0] != '"');
    } else {
        assert(s[0] != '"');
        assert(!s.skip(1).contains('"'));
        lemma_argument_read(s.skip(1), cur.push(s[0]));
        assert(cur.push(s[0]) + s.skip(1).take(k - 1) =~= cur + s.take(k));
        assert(s.skip(1).skip(k - 1) =~= s.skip(k));
    }
}

// ── Groups and order ────────────────────────────────────────────────────────

/// The group of a strategy, by its name in small letters.
pub open spec fn group_name(small: Seq<char>) -> Seq<char> {
    if contains(small, "fake tls"@) {
        "FAKE TLS"@
    } else if contains(small, "simple fake"@) {
        "Simple Fake"@
    } else if contains(small, "alt"@) {
        "ALT"@
    } else {
        "general"@
    }
}

/// The group of a strategy whose name in small letters is `small`.
pub fn group_of_small(small: &str) -> (r: String)
    ensures
        r@ == group_name(small@),
{
    if occurs(small, "fake tls") {
        "FAKE TLS".to_owned()
    } else if occurs(small, "simple fake") {
        "Simple Fake".to_owned()
    } else if occurs(small, "alt") {
        "ALT".to_owned()
    } else {
        "general".to_owned()
    }
}

/// The group of a strategy by the name of its file.
pub fn group_of(name: &str) -> (r: String)
    ensures
        r@ == group_name(small_case(name@)),
{
    let small = to_lowercase(name);
    group_of_small(small.as_str())
}

/// The place of a group in the drop-down list.
pub open spec fn rank_of(group: Seq<char>) -> nat {
    if group == "general"@ {
        0
    } else if group == "ALT"@ {
        1
    } else if group == "FAKE TLS"@ {
        2
    } else if group == "Simple Fake"@ {
        3
    } else {
        4
    }
}

/// The place of a group in the drop-down list.
pub fn group_rank(group: &str) -> (r: u8)
    ensures
        r == rank_of(group@),
{
    if same(group, "general") {
        0
    } else if same(group, "ALT") {
        1
    } else if same(group, "FAKE TLS") {
        2
    } else if same(group, "Simple Fake") {
        3
    } else {
        4
    }
}

/// Whether a character counts in the natural order: of ASCII the letters and digits, of
/// the rest the letters.
pub open spec fn counts(c: char) -> bool {
    if (c as u32) < 128 {
        is_alnum(c)
    } else {
        alphabetic(c)
    }
}

/// The characters of `s` that count.
pub open spec fn counted(s: Seq<char>) -> Seq<char>
    decreases s.len(),
{
    if s.len() == 0 {
        Seq::empty()
    } else if counts(s.last()) {
        counted(s.drop_last()).push(s.last())
    } else {
        counted(s.drop_last())
    }
}

/// The length of the longest prefix of `s` that is made of digits only (`of_digits`) or
/// holds no digit.
pub open spec fn run_len(s: Seq<char>, of_digits: bool) -> nat
    decreases s.len(),
{
    if s.len() == 0 || is_digit(s[0]) != of_digits {
        0
    } else {
        1 + run_len(s.skip(1), of_digits)
    }
}

/// The parts of a text: each run of digits as its number (the greatest `u64` where it is
/// larger), each other run as it is.
pub open spec fn runs(s: Seq<char>) -> Seq<PartView>
    decreases s.len(),
    via runs_shrink
{
    if s.len() == 0 {
        Seq::empty()
    } else {
        let d = is_digit(s[0]);
        let k = run_len(s, d) as int;
        let part = if d {
            (
                match parsed(s.take(k), u64::MAX as nat) {
                    Some(n) => n,
                    None => u64::MAX as nat,
                },
                Seq::empty(),
            )
        } else {
            (0, s.take(k))
        };
        seq![part] + runs(s.skip(k))
    }
}

#[via_fn]
proof fn runs_shrink(s: Seq<char>) {
    if s.len() > 0 {
        lemma_run_len(s, is_digit(s[0]));
    }
}

proof fn lemma_run_len(s: Seq<char>, d: bool)
    ensures
        run_len(s, d) <= s.len(),
        s.len() > 0 && is_digit(s[0]) == d ==> run_len(s, d) > 0,
    decreases s.len(),
{
    if s.len() > 0 && is_digit(s[0]) == d {
        lemma_run_len(s.skip(1), d);
    }
}

proof fn lemma_run_len_is(s: Seq<char>, d: bool, k: int)
    requires
        0 <= k <= s.len(),
        forall|i: int| 0 <= i < k ==> is_digit(#[trigger] s[i]) == d,
        k == s.len() || is_digit(s[k]) != d,
    ensures
        run_len(s, d) == k,
    decreases k,
{
    if k > 0 {
        assert(is_digit(s[0]) == d);
        assert forall|i: int| 0 <= i < k - 1 implies is_digit(#[trigger] s.skip(1)[i]) == d by {
            assert(s.skip(1)[i] == s[i + 1]);
        }
        lemma_run_len_is(s.skip(1), d, k - 1);
    }
}

/// The key of the natural order of a name: numbers compare as numbers, letters in small
/// case; nothing else counts, so that punctuation and spaces do not matter.
pub open spec fn natural(name: Seq<char>) -> Seq<PartView> {
    runs(counted(small_case(name)))
}

/// The characters of `s` that count.
fn keep_counted(s: &str) -> (r: String)
    ensures
        r@ == counted(s@),
{
    let v = chars_of(s);
    let mut out = String::new();
    let mut i: usize = 0;
    assert(s@.take(0) =~= Seq::<char>::empty());
    assert(out@ =~= Seq::<char>::empty());
    while i < v.len()
        invariant
            i <= v@.len(),
            v@ == s@,
            out@ == counted(s@.take(i as int)),
        decreases v@.len() - i,
    {
        proof {
            assert(s@.take(i + 1).drop_last() =~= s@.take(i as int));
            assert(s@.take(i + 1).last() == v@[i as int]);
        }
        let c = v[i];
        let kept = if (c as u32) < 128 {
            alnum(c)
        } else {
            is_alphabetic(c)
        };
        if kept {
            out.push(c);
        }
        i += 1;
    }
    assert(s@.take(s@.len() as int) =~= s@);
    out
}

/// The key of the natural order of a name, by which `ALT` < `ALT2` < `ALT10`.
pub fn natural_key(s: &str) -> (r: Vec<(u64, String)>)
    ensures
        crate::order::parts_view(r@) == natural(s@),
{
    let small = to_lowercase(s);
    let kept = keep_counted(small.as_str());
    natural_parts(kept.as_str())
}

/// The key of the natural order of a name of which `kept` is what counts, in small letters.
pub fn natural_parts(kept: &str) -> (r: Vec<(u64, String)>)
    ensures
        crate::order::parts_view(r@) == runs(kept@),
{
    let v = chars_of(kept);
    let n: usize = v.len();
    let ghost all = v@;
    let mut out: Vec<(u64, String)> = Vec::new();
    let mut i: usize = 0;
    proof {
        assert(all.skip(0) =~= all);
        assert(crate::order::parts_view(out@) + runs(all) =~= runs(all));
    }
    while i < n
        invariant
            i <= n,
            n == v@.len(),
            all == v@,
            runs(all) == crate::order::parts_view(out@) + runs(all.skip(i as int)),
        decreases n - i,
    {
        let d = digit(v[i]);
        let ghost rest = all.skip(i as int);
        let ghost before = crate::order::parts_view(out@);
        let mut j: usize = i;
        while j < n && digit(v[j]) == d
            invariant
                i <= j <= n,
                n == v@.len(),
                all == v@,
                rest == all.skip(i as int),
                forall|k: int| 0 <= k < j - i ==> is_digit(#[trigger] rest[k]) == d,
            decreases n - j,
        {
            assert(rest[j - i] == v@[j as int]);
            j += 1;
        }
        proof {
            assert(rest[0] == v@[i as int]);
            if j < n {
                assert(rest[j - i] == v@[j as int]);
            }
            lemma_run_len_is(rest, d, j - i);
            lemma_run_len(rest, d);
            assert(all.subrange(i as int, j as int) =~= rest.take(j - i));
            assert(rest.skip(j - i) =~= all.skip(j as int));
        }
        if d {
            let num: u64 = match parse_u64(piece(&v, i, j).as_str()) {
                Some(x) => x,
                None => u64::MAX,
            };
            let none = String::new();
            assert(none@ =~= Seq::<char>::empty());
            out.push((num, none));
        } else {
            out.push((0, piece(&v, i, j)));
        }
        proof {
            let next = runs(all.skip(j as int));
            let part = crate::order::parts_view(out@).last();
            assert(crate::order::parts_view(out@) =~= before.push(part));
            assert(before + (seq![part] + next) =~= crate::order::parts_view(out@) + next);
        }
        i = j;
    }
    assert(crate::order::parts_view(out@) + Seq::<PartView>::empty() =~= crate::order::parts_view(
        out@,
    ));
    out
}

/// The sort key of a strategy: its group, then its name in the natural order.
pub open spec fn strategy_key(s: StrategyView) -> KeyView {
    (rank_of(s.group), natural(s.name))
}

/// The sort keys of a list of strategies.
pub open spec fn strategy_keys(list: Seq<StrategyView>) -> Seq<KeyView> {
    Seq::new(list.len(), |i: int| strategy_key(list[i]))
}

/// Sorts strategies by their groups, then by their names in the natural order.
pub fn sort_strategies(items: &mut Vec<Strategy>)
    ensures
        exists|p: Seq<int>| sorted_stably(
            old(items)@,
            strategy_keys(views(old(items)@)),
            final(items)@,
            p,
        ),
{
    let mut keys: Vec<SortKey> = Vec::new();
    let mut i: usize = 0;
    while i < items.len()
        invariant
            i <= items@.len(),
            items@ == old(items)@,
            keys@.len() == i,
            forall|k: int| 0 <= k < i ==> (#[trigger] keys@[k])@ == strategy_key(items@[k]@),
        decreases items@.len() - i,
    {
        keys.push(
            SortKey {
                rank: group_rank(items[i].group.as_str()),
                parts: natural_key(items[i].name.as_str()),
            },
        );
        i += 1;
    }
    assert(crate::order::keys_view(keys@) =~= strategy_keys(views(items@)));
    sort_by_keys(items, keys);
}

// ── The whole file ──────────────────────────────────────────────────────────

/// The name of a file without its extension. A name without a dot, and one whose only
/// dot is the first character, has no extension.
pub open spec fn stem(file_name: Seq<char>) -> Seq<char> {
    match last_dot(file_name) {
        Some(i) => if i == 0 || file_name == ".."@ {
            file_name
        } else {
            file_name.take(i)
        },
        None => file_name,
    }
}

/// The position of the last dot.
pub open spec fn last_dot(s: Seq<char>) -> Option<int>
    decreases s.len(),
{
    if s.len() == 0 {
        None
    } else if s.last() == '.' {
        Some(s.len() - 1)
    } else {
        last_dot(s.drop_last())
    }
}

/// The name of a file without its extension.
pub fn file_stem(file_name: &str) -> (r: String)
    ensures
        r@ == stem(file_name@),
{
    let v = chars_of(file_name);
    let mut i: usize = v.len();
    assert(file_name@.take(i as int) =~= file_name@);
    while i > 0
        invariant
            i <= v@.len(),
            v@ == file_name@,
            last_dot(file_name@) == last_dot(file_name@.take(i as int)),
        decreases i,
    {
        i -= 1;
        assert(file_name@.take(i + 1).drop_last() =~= file_name@.take(i as int));
        assert(file_name@.take(i + 1).last() == v@[i as int]);
        if v[i] == '.' {
            if i == 0 || same(file_name, "..") {
                return file_name.to_owned();
            }
            return head(file_name, i).to_owned();
        }
    }
    file_name.to_owned()
}

/// A file `general*.bat`, in any letter case.
pub open spec fn general_bat(file_name: Seq<char>) -> bool {
    &&& begins(lowered(file_name), "general"@)
    &&& last_dot(file_name) matches Some(i) && i > 0 && lowered(file_name.skip(i + 1)) == "bat"@
}

/// Whether a file is a `general*.bat`, in any letter case.
pub fn is_general_bat(file_name: &str) -> (r: bool)
    ensures
        r == general_bat(file_name@),
{
    let small = ascii_lowered(file_name);
    if !starts_with(small.as_str(), "general") {
        return false;
    }
    let v = chars_of(file_name);
    let mut i: usize = v.len();
    assert(file_name@.take(i as int) =~= file_name@);
    while i > 0
        invariant
            i <= v@.len(),
            v@ == file_name@,
            begins(lowered(file_name@), "general"@),
            last_dot(file_name@) == last_dot(file_name@.take(i as int)),
        decreases i,
    {
        i -= 1;
        assert(file_name@.take(i + 1).drop_last() =~= file_name@.take(i as int));
        assert(file_name@.take(i + 1).last() == v@[i as int]);
        if v[i] == '.' {
            let extension = ascii_lowered(tail(file_name, i + 1));
            return i > 0 && same(extension.as_str(), "bat");
        }
    }
    false
}

/// The first line that calls `winws.exe`, in any letter case.
pub open spec fn winws_line(lines: Seq<Seq<char>>) -> Option<Seq<char>>
    decreases lines.len(),
{
    if lines.len() == 0 {
        None
    } else if contains(lowered(lines[0]), "winws.exe"@) {
        Some(lines[0])
    } else {
        winws_line(lines.skip(1))
    }
}

/// The first line that calls `winws.exe`.
pub fn find_winws(lines: &[String]) -> (r: Option<String>)
    ensures
        opt_text(r) == winws_line(texts(lines@)),
{
    let ghost ls = texts(lines@);
    let mut i: usize = 0;
    assert(ls.skip(0) =~= ls);
    while i < lines.len()
        invariant
            i <= lines@.len(),
            ls == texts(lines@),
            winws_line(ls) == winws_line(ls.skip(i as int)),
        decreases lines@.len() - i,
    {
        assert(ls.skip(i as int)[0] == lines@[i as int]@);
        assert(ls.skip(i as int).skip(1) =~= ls.skip(i + 1));
        let small = ascii_lowered(lines[i].as_str());
        if occurs(small.as_str(), "winws.exe") {
            return Some(lines[i].clone());
        }
        i += 1;
    }
    None
}

/// The tokens of the `winws.exe` call of a batch file, with the variables put in, and the
/// argument string as it stands in the file; or why there are none.
pub open spec fn winws_tokens(
    text: Seq<char>,
    dp0: Seq<char>,
) -> Result<(Seq<Seq<char>>, Seq<char>), Seq<char>> {
    let ls = logical_lines(text);
    match winws_line(ls) {
        None => Err("вызов winws.exe не найден"@),
        Some(line) => {
            let raw = args_after_winws(line);
            if trimmed(raw).len() == 0 {
                Err("пустой список аргументов"@)
            } else {
                let full = expanded(replaced(raw, "%~dp0"@, dp0), bindings(ls, dp0), 10);
                let tokens = arguments(full, Seq::empty(), false, false);
                if tokens.len() == 0 {
                    Err("аргументы не разобрались"@)
                } else {
                    Ok((tokens, raw))
                }
            }
        },
    }
}

/// Reads the `winws.exe` call of a batch file: its tokens with the variables put in, and
/// the argument string as it stands in the file.
pub fn read_winws_call(text: &str, dp0: &str) -> (r: Result<(Vec<String>, String), String>)
    ensures
        match r {
            Ok(p) => winws_tokens(text@, dp0@) == Ok::<(Seq<Seq<char>>, Seq<char>), Seq<char>>(
                (texts(p.0@), p.1@),
            ),
            Err(e) => winws_tokens(text@, dp0@) == Err::<
                (Seq<Seq<char>>, Seq<char>),
                Seq<char>,
            >(e@),
        },
{
    let stripped = strip_comments(text);
    let logical = join_continuations(&stripped);
    let vars = collect_vars(&logical, dp0);
    match find_winws(&logical) {
        None => Err("вызов winws.exe не найден".to_owned()),
        Some(line) => {
            let raw = extract_args_after_winws(line.as_str());
            if trim(raw.as_str()).is_empty() {
                return Err("пустой список аргументов".to_owned());
            }
            proof {
                reveal_strlit("%~dp0");
            }
            let based = replace(raw.as_str(), "%~dp0", dp0);
            let full = expand_vars(based.as_str(), &vars);
            let tokens = split_args(full.as_str());
            if tokens.len() == 0 {
                return Err("аргументы не разобрались".to_owned());
            }
            Ok((tokens, raw))
        },
    }
}

/// The strategy that a Flowseal batch file holds, or why it holds none.
pub open spec fn flowseal(
    source_path: Seq<char>,
    name: Seq<char>,
    text: Seq<char>,
    core_dir: Seq<char>,
) -> Result<StrategyView, Seq<char>> {
    match winws_tokens(text, core_dir + "/"@) {
        Err(e) => Err(e),
        Ok(call) => {
            let args = engine_args(call.0);
            if args.len() == 0 {
                Err("после удаления --wf-* не осталось аргументов"@)
            } else {
                Ok(
                    StrategyView {
                        name,
                        group: group_name(small_case(name)),
                        source_path,
                        args,
                        raw_args: joined(args, " "@),
                        wf_tcp: flagged_ports(call.0, "--wf-tcp="@),
                        wf_udp: flagged_ports(call.0, "--wf-udp="@),
                    },
                )
            }
        },
    }
}

/// The text of an outcome of reading a batch file.
pub open spec fn outcome(r: Result<Strategy, String>) -> Result<StrategyView, Seq<char>> {
    match r {
        Ok(s) => Ok(s@),
        Err(e) => Err(e@),
    }
}

/// Reads the text of one Flowseal batch file. `core_dir` is the directory of the core, to
/// which `%~dp0`, `%BIN%` and `%LISTS%` lead.
pub fn parse_flowseal_text(source_path: &str, name: &str, text: &str, core_dir: &str) -> (r: Result<
    Strategy,
    String,
>)
    ensures
        outcome(r) == flowseal(source_path@, name@, text@, core_dir@),
{
    let dp0 = cat(core_dir, "/");
    match read_winws_call(text, dp0.as_str()) {
        Err(e) => Err(e),
        Ok(call) => {
            let parted = part_tokens(&call.0);
            if parted.args.len() == 0 {
                return Err("после удаления --wf-* не осталось аргументов".to_owned());
            }
            let raw_args = join(&parted.args, " ");
            Ok(
                Strategy {
                    name: name.to_owned(),
                    group: group_of(name),
                    source_path: source_path.to_owned(),
                    args: parted.args,
                    raw_args,
                    wf_tcp: parted.wf_tcp,
                    wf_udp: parted.wf_udp,
                },
            )
        },
    }
}

/// The name of a strategy: the file name without its extension, `strategy` where the file
/// name is no text.
pub open spec fn strategy_name(file_name: Option<Seq<char>>) -> Seq<char> {
    match file_name {
        Some(n) => stem(n),
        None => "strategy"@,
    }
}

/// The name of the strategy of a file.
pub fn name_of_file(file_name: Option<&str>) -> (r: String)
    ensures
        r@ == strategy_name(opt_str(file_name)),
{
    match file_name {
        Some(n) => file_stem(n),
        None => "strategy".to_owned(),
    }
}

/// Reads one Flowseal batch file: `bytes` is what the file at `source_path` holds, and
/// `file_name` the last part of its path.
pub fn parse_flowseal(
    source_path: &str,
    file_name: Option<&str>,
    bytes: &[u8],
    core_dir: &str,
) -> (r: Result<Strategy, String>)
    ensures
        outcome(r) == flowseal(
            source_path@,
            strategy_name(opt_str(file_name)),
            text_of(bytes@),
            core_dir@,
        ),
{
    let text = from_utf8_lossy(bytes);
    let name = name_of_file(file_name);
    parse_flowseal_text(source_path, name.as_str(), text.as_str(), core_dir)
}

// ── What holds of all batch files ───────────────────────────────────────────

/// Every token is an argument or names ports to capture, and each counts as often as it
/// stands there: a token that begins with `--wf-tcp=` or `--wf-udp=` gives no argument, any
/// other one gives itself with `/` for `\\`, and the arguments of two lists of tokens
/// follow each other.
pub proof fn every_token_counts(a: Seq<Seq<char>>, b: Seq<Seq<char>>)
    ensures
        engine_args(a + b) == engine_args(a) + engine_args(b),
        a.len() == 1 && (begins(a[0], "--wf-tcp="@) || begins(a[0], "--wf-udp="@)) ==> engine_args(
            a,
        ).len() == 0,
        a.len() == 1 && !begins(a[0], "--wf-tcp="@) && !begins(a[0], "--wf-udp="@) ==> {
            let r = engine_args(a);
            &&& r.len() == 1 && r[0].len() == a[0].len()
            &&& forall|i: int|
                0 <= i < a[0].len() ==> #[trigger] r[0][i] == (if a[0][i] == '\\' {
                    '/'
                } else {
                    a[0][i]
                })
        },
        engine_args(a).len() + a.filter(
            |t: Seq<char>| begins(t, "--wf-tcp="@) || begins(t, "--wf-udp="@),
        ).len() == a.len(),
    decreases a.len() + b.len(),
{
    reveal_with_fuel(engine_args, 2);
    if b.len() > 0 {
        every_token_counts(a, b.drop_last());
        assert((a + b).drop_last() =~= a + b.drop_last());
        assert((a + b).last() == b.last());
        assert(engine_args(a + b) =~= engine_args(a) + engine_args(b));
    } else {
        assert(a + b =~= a);
        assert(engine_args(a) + engine_args(b) =~= engine_args(a));
        reveal(Seq::filter);
        let flag = |t: Seq<char>| begins(t, "--wf-tcp="@) || begins(t, "--wf-udp="@);
        if a.len() > 0 {
            every_token_counts(a.drop_last(), b);
            assert(flag(a.last()) == (begins(a.last(), "--wf-tcp="@) || begins(
                a.last(),
                "--wf-udp="@,
            )));
        }
    }
    if a.len() == 1 {
        assert(a.drop_last() =~= Seq::empty());
        reveal_strlit("\\");
        reveal_strlit("/");
        assert("\\"@ =~= seq!['\\']);
        assert("/"@ =~= seq!['/']);
        crate::text::replacing_a_char_maps_it(a[0], '\\', '/');
    }
}

/// The ports to capture are those of the last token that names them, whatever stands
/// before it; without such a token there are none.
pub proof fn the_last_ports_count(
    a: Seq<Seq<char>>,
    flag: Seq<char>,
    v: Seq<char>,
    b: Seq<Seq<char>>,
)
    requires
        forall|i: int| 0 <= i < b.len() ==> !begins(#[trigger] b[i], flag),
    ensures
        flagged_ports(a + seq![flag + v] + b, flag) == ports(v),
        flagged_ports(b, flag) == Seq::<Seq<char>>::empty(),
    decreases b.len(),
{
    if b.len() == 0 {
        let t = flag + v;
        assert(t.take(flag.len() as int) =~= flag);
        assert(t.skip(flag.len() as int) =~= v);
        assert((a + seq![t] + b).last() == t);
    } else {
        let c = b.drop_last();
        assert forall|i: int| 0 <= i < c.len() implies !begins(#[trigger] c[i], flag) by {
            assert(c[i] == b[i]);
        }
        the_last_ports_count(a, flag, v, c);
        let all = a + seq![flag + v] + b;
        assert(all.drop_last() =~= a + seq![flag + v] + c);
        assert(all.last() == b[b.len() - 1]);
    }
}

/// A port or a range as one writes it: not empty, without commas, and without white space
/// at its ends.
pub open spec fn is_port_text(p: Seq<char>) -> bool {
    p.len() > 0 && !is_white(p[0]) && !is_white(p.last()) && !p.contains(',')
}

/// The ports of a list are read as they are written, each once and in order; white space
/// round them does not count, and neither do empty places between the commas.
pub proof fn ports_are_read(list: Seq<Seq<char>>, a: Seq<char>, b: Seq<char>)
    requires
        list.len() > 0,
        forall|i: int| 0 <= i < list.len() ==> is_port_text(#[trigger] list[i]),
        !a.contains(','),
        !b.contains(','),
        forall|i: int| 0 <= i < a.len() ==> is_white(#[trigger] a[i]),
        forall|i: int| 0 <= i < b.len() ==> is_white(#[trigger] b[i]),
    ensures
        ports(joined(list, ","@)) == list,
        ports(a + list[0] + b) == seq![list[0]],
        ports(a) == Seq::<Seq<char>>::empty(),
        ports(a + ","@ + joined(list, ","@)) == list,
{
    reveal_strlit(",");
    assert(","@ =~= seq![',']);
    let none = Seq::<char>::empty();
    assert forall|i: int| 0 <= i < list.len() implies !(#[trigger] list[i]).contains(',') by {
        assert(is_port_text(list[i]));
    }
    crate::text::joined_pieces_come_back(list, ',');
    lemma_tidy(list);
    assert(is_port_text(list[0]));
    crate::text::trimming_takes_off_the_ends(a, list[0], b, whites());
    let one = a + list[0] + b;
    if one.contains(',') {
        let i = choose|i: int| 0 <= i < one.len() && one[i] == ',';
        if i < a.len() {
            assert(a[i] == ',');
        } else if i < a.len() + list[0].len() {
            assert(list[0][i - a.len()] == ',');
        } else {
            assert(b[i - a.len() - list[0].len()] == ',');
        }
    }
    crate::text::splitting_takes_pieces_off(one, ',', none);
    reveal_with_fuel(tidy, 2);
    assert(seq![one].drop_last() =~= Seq::empty());
    assert(ports(one) =~= seq![list[0]]);
    crate::text::splitting_takes_pieces_off(a, ',', joined(list, ","@));
    crate::text::trimming_takes_off_the_ends(a, none, none, whites());
    assert(a + none + none =~= a);
    assert(seq![a].drop_last() =~= Seq::empty());
    assert(ports(a) =~= Seq::empty());
    lemma_tidy_two(seq![a], list);
    assert(tidy(seq![a]) + list =~= list);
}

proof fn lemma_tidy(list: Seq<Seq<char>>)
    requires
        forall|i: int| 0 <= i < list.len() ==> is_port_text(#[trigger] list[i]),
    ensures
        tidy(list) == list,
    decreases list.len(),
{
    if list.len() > 0 {
        let t = list.drop_last();
        assert forall|i: int| 0 <= i < t.len() implies is_port_text(#[trigger] t[i]) by {
            assert(t[i] == list[i]);
        }
        lemma_tidy(t);
        let p = list.last();
        assert(is_port_text(list[list.len() - 1]));
        let none = Seq::<char>::empty();
        crate::text::trimming_takes_off_the_ends(none, p, none, whites());
        assert(none + p + none =~= p);
        assert(t.push(p) =~= list);
    }
}

proof fn lemma_tidy_two(a: Seq<Seq<char>>, b: Seq<Seq<char>>)
    ensures
        tidy(a + b) == tidy(a) + tidy(b),
    decreases b.len(),
{
    if b.len() == 0 {
        assert(a + b =~= a);
        assert(tidy(a) + tidy(b) =~= tidy(a));
    } else {
        lemma_tidy_two(a, b.drop_last());
        assert((a + b).drop_last() =~= a + b.drop_last());
        assert((a + b).last() == b.last());
        assert(tidy(a + b) =~= tidy(a) + tidy(b));
    }
}

/// Comments leave and nothing else does: a line that begins with `::` or with the word
/// `rem`, in any letter case, gives nothing, any other one gives itself, and the lines of
/// two parts of a file follow each other.
pub proof fn only_comments_leave(
    a: Seq<Seq<char>>,
    b: Seq<Seq<char>>,
    w: Seq<char>,
    text: Seq<char>,
)
    requires
        forall|i: int| 0 <= i < w.len() ==> is_white(#[trigger] w[i]),
    ensures
        without_comments(a + b) == without_comments(a) + without_comments(b),
        without_comments(seq![w + "::"@ + text]) == Seq::<Seq<char>>::empty(),
        without_comments(seq![w + "rem "@ + text]) == Seq::<Seq<char>>::empty(),
        without_comments(seq![w + "REM "@ + text]) == Seq::<Seq<char>>::empty(),
        without_comments(seq![w + "rem"@]) == Seq::<Seq<char>>::empty(),
        text.len() > 0 && text[0] != ':' && text[0] != 'r' && text[0] != 'R' && !is_white(text[0])
            ==> without_comments(seq![w + text]) == seq![w + text],
        !begins(lowered(text), "rem"@) && text.len() > 0 && text[0] != ':' && !is_white(text[0])
            ==> without_comments(seq![w + text]) == seq![w + text],
    decreases b.len(),
{
    if b.len() == 0 {
        assert(a + b =~= a);
        assert(without_comments(a) + without_comments(b) =~= without_comments(a));
    } else {
        only_comments_leave(a, b.drop_last(), w, text);
        assert((a + b).drop_last() =~= a + b.drop_last());
        assert((a + b).last() == b.last());
        assert(without_comments(a + b) =~= without_comments(a) + without_comments(b));
    }
    lemma_one_line(w + "::"@ + text);
    lemma_one_line(w + "rem "@ + text);
    lemma_one_line(w + "REM "@ + text);
    lemma_one_line(w + "rem"@);
    lemma_one_line(w + text);
    reveal_strlit("::");
    reveal_strlit("rem ");
    reveal_strlit("REM ");
    reveal_strlit("rem");
    let n = w.len() as int;
    let c = w + "::"@ + text;
    let r = w + "rem "@ + text;
    let u = w + "REM "@ + text;
    let e = w + "rem"@;
    let t = w + text;
    crate::text::lemma_trim_start(c, whites(), n);
    crate::text::lemma_trim_start(r, whites(), n);
    crate::text::lemma_trim_start(u, whites(), n);
    crate::text::lemma_trim_start(e, whites(), n);
    assert(c.skip(n).take(2) =~= "::"@);
    assert(lowered(r.skip(n)).take(4) =~= "rem "@);
    assert(lowered(u.skip(n)).take(4) =~= "rem "@);
    assert(lowered(e.skip(n)) =~= "rem"@);
    if text.len() > 0 && !is_white(text[0]) {
        crate::text::lemma_trim_start(t, whites(), n);
        assert(t.skip(n) =~= text);
        if begins(text, "::"@) {
            assert(text.take(2)[0] == text[0]);
        }
        if lowered(text) == "rem"@ {
            assert(lowered(text)[0] == crate::text::lower(text[0]));
            assert(lowered(text).take(3) =~= "rem"@);
        }
        if begins(lowered(text), "rem "@) {
            assert(lowered(text).take(4)[0] == crate::text::lower(text[0]));
            assert(lowered(text).take(3) =~= lowered(text).take(4).take(3));
            assert("rem "@.take(3) =~= "rem"@);
        }
    }
}

proof fn lemma_one_line(line: Seq<char>)
    ensures
        without_comments(seq![line]) == (if is_comment(line) {
            Seq::<Seq<char>>::empty()
        } else {
            seq![line]
        }),
{
    reveal_with_fuel(without_comments, 2);
    assert(seq![line].drop_last() =~= Seq::empty());
    assert(Seq::<Seq<char>>::empty().push(line) =~= seq![line]);
}

/// A `^` at the end of a line joins the next line to it with a space: the two read as the
/// one line would. A line that does not end so stands for itself, without the white space
/// at its end.
pub proof fn carets_join_lines(
    x: Seq<char>,
    w: Seq<char>,
    m: Seq<char>,
    rest: Seq<Seq<char>>,
)
    requires
        forall|i: int| 0 <= i < w.len() ==> is_white(#[trigger] w[i]),
    ensures
        m.len() > 0 && !is_white(m.last()) ==> glued(
            seq![x + "^"@ + w, m] + rest,
            Seq::empty(),
        ) == glued(seq![x + " "@ + m] + rest, Seq::empty()),
        x.len() == 0 || (x.last() != '^' && !is_white(x.last())) ==> glued(
            seq![x + w] + rest,
            Seq::empty(),
        ) == seq![x] + glued(rest, Seq::empty()),
        glued(Seq::empty(), Seq::empty()) == Seq::<Seq<char>>::empty(),
{
    reveal_strlit("^");
    reveal_strlit(" ");
    let none = Seq::<char>::empty();
    let l = x + "^"@ + w;
    assert(!is_white('^'));
    crate::text::lemma_trim_end(l, whites(), x.len() as int + 1);
    let t = l.take(x.len() as int + 1);
    assert(t =~= x + "^"@);
    assert(t.skip(t.len() - 1) =~= "^"@);
    assert(t.take(t.len() - 1) =~= x);
    let two = seq![l, m] + rest;
    let one = seq![x + " "@ + m] + rest;
    assert(two.skip(1) =~= seq![m] + rest);
    assert((none + x).push(' ') =~= x + " "@);
    if m.len() > 0 && !is_white(m.last()) {
        let acc = x + " "@;
        let next = seq![m] + rest;
        assert(next.skip(1) =~= rest);
        assert(one.skip(1) =~= rest);
        crate::text::lemma_trim_end(m, whites(), m.len() as int);
        assert(m.take(m.len() as int) =~= m);
        let joint = acc + m;
        assert(joint =~= x + " "@ + m);
        crate::text::lemma_trim_end(joint, whites(), joint.len() as int);
        assert(joint.take(joint.len() as int) =~= joint);
        assert(joint.last() == m.last());
        assert(m.skip(m.len() - 1) =~= seq![m.last()]);
        assert(joint.skip(joint.len() - 1) =~= seq![m.last()]);
        assert(acc + m.take(m.len() - 1) =~= none + joint.take(joint.len() - 1));
        assert(glued(two, none) == glued(next, acc));
        assert(none + joint =~= joint);
        assert(glued(next, acc) == glued(one, none));
    }
    if x.len() == 0 || (x.last() != '^' && !is_white(x.last())) {
        let y = x + w;
        crate::text::lemma_trim_end(y, whites(), x.len() as int);
        assert(y.take(x.len() as int) =~= x);
        assert(!crate::text::ends(x, "^"@)) by {
            if crate::text::ends(x, "^"@) {
                assert(x.skip(x.len() - 1)[0] == x.last());
            }
        }
        let all = seq![y] + rest;
        assert(all.skip(1) =~= rest);
        assert(none + x =~= x);
    }
}

/// A name or a value as one writes it in an assignment: without white space or quotation
/// marks at its ends.
pub open spec fn is_plain(v: Seq<char>) -> bool {
    v.len() > 0 ==> !is_white(v[0]) && !is_white(v.last()) && v[0] != '"' && v.last() != '"'
}

/// An assignment sets what it says, with quotation marks round it or without and in any
/// letter case of `set`: the name is what stands before the first `=`, the value what
/// stands behind it. A line that begins otherwise sets nothing.
pub proof fn assignments_are_read(name: Seq<char>, value: Seq<char>, line: Seq<char>)
    requires
        name.len() > 0,
        is_plain(name),
        is_plain(value),
        !name.contains('='),
    ensures
        setting("set "@ + name + "="@ + value) == Some((name, value)),
        setting("SET "@ + name + "="@ + value) == Some((name, value)),
        setting("set \""@ + name + "="@ + value + "\""@) == Some((name, value)),
        setting("set "@ + name) is None,
        line.len() > 0 && !is_white(line[0]) && line[0] != 's' && line[0] != 'S' ==> setting(
            line,
        ) is None,
{
    reveal_strlit("set ");
    reveal_strlit("SET ");
    reveal_strlit("set \"");
    reveal_strlit("=");
    reveal_strlit("\"");
    let none = Seq::<char>::empty();
    let body = name + "="@ + value;
    lemma_body(name, value);
    assert("set "@ + name + "="@ + value =~= "set "@ + body);
    assert("SET "@ + name + "="@ + value =~= "SET "@ + body);
    lemma_set_word("set "@, body);
    lemma_set_word("SET "@, body);
    assert(!begins(body, "\""@)) by {
        if begins(body, "\""@) {
            assert(body.take(1)[0] == name[0]);
        }
    }
    let q = "\""@ + body + "\""@;
    assert("set \""@ + name + "="@ + value + "\""@ =~= "set "@ + q);
    assert(!is_white('"'));
    lemma_set_word("set "@, q);
    assert(q.take(1) =~= "\""@);
    let r = q.skip(1);
    assert(r =~= body + "\""@);
    assert(r.skip(r.len() - 1) =~= "\""@);
    assert(r.take(r.len() - 1) =~= body);
    assert(none + body + none =~= body);
    crate::text::trimming_takes_off_the_ends(none, body, none, whites());
    lemma_set_word("set "@, name);
    assert(!begins(name, "\""@)) by {
        if begins(name, "\""@) {
            assert(name.take(1)[0] == name[0]);
        }
    }
    assert("="@ =~= seq!['=']);
    crate::text::lemma_find_char(name, '=', none);
    if line.len() > 0 && !is_white(line[0]) && line[0] != 's' && line[0] != 'S' {
        let t = trim_start_by(line, whites());
        assert(t == line);
        crate::text::lemma_trim_end_fact(line, whites());
        let u = trimmed(line);
        if begins(lowered(u), "set "@) {
            assert(lowered(u).take(4)[0] == crate::text::lower(u[0]));
            assert(u[0] == line[0]);
        }
    }
}

proof fn lemma_body(name: Seq<char>, value: Seq<char>)
    requires
        name.len() > 0,
        is_plain(name),
        is_plain(value),
        !name.contains('='),
    ensures
        ({
            let body = name + "="@ + value;
            &&& body[0] == name[0] && !is_white(body.last())
            &&& find(body, "="@) == Some(name.len() as int)
            &&& trimmed(body.take(name.len() as int)) == name
            &&& trim_by(trimmed(body.skip(name.len() as int + 1)), only('"')) == value
        }),
{
    reveal_strlit("=");
    let none = Seq::<char>::empty();
    let body = name + "="@ + value;
    assert("="@ =~= seq!['=']);
    crate::text::lemma_find_char(name, '=', value);
    assert(body.take(name.len() as int) =~= name);
    assert(body.skip(name.len() as int + 1) =~= value);
    assert(body.last() == (if value.len() > 0 {
        value.last()
    } else {
        '='
    }));
    assert(none + name + none =~= name);
    assert(none + value + none =~= value);
    crate::text::trimming_takes_off_the_ends(none, name, none, whites());
    crate::text::trimming_takes_off_the_ends(none, value, none, whites());
    crate::text::trimming_takes_off_the_ends(none, value, none, only('"'));
}

proof fn lemma_set_word(w: Seq<char>, rest: Seq<char>)
    requires
        w == "set "@ || w == "SET "@,
        rest.len() > 0,
        !is_white(rest[0]),
        !is_white(rest.last()),
    ensures
        trimmed(w + rest) == w + rest,
        begins(lowered(w + rest), "set "@),
        trimmed((w + rest).skip(4)) == rest,
{
    reveal_strlit("set ");
    reveal_strlit("SET ");
    let none = Seq::<char>::empty();
    let t = w + rest;
    assert(none + t + none =~= t);
    crate::text::trimming_takes_off_the_ends(none, t, none, whites());
    assert(lowered(t).take(4) =~= "set "@);
    assert(t.skip(4) =~= rest);
    assert(none + rest + none =~= rest);
    crate::text::trimming_takes_off_the_ends(none, rest, none, whites());
}

/// A later assignment of a variable replaces an earlier one and no other variable changes;
/// a line that sets nothing changes nothing.
pub proof fn the_last_assignment_counts(
    lines: Seq<Seq<char>>,
    dp0: Seq<char>,
    name: Seq<char>,
    value: Seq<char>,
    other: Seq<char>,
    line: Seq<char>,
)
    requires
        name.len() > 0,
        is_plain(name),
        is_plain(value),
        !name.contains('='),
        !contains(value, "%~dp0"@),
    ensures
        ({
            let vars = bindings(lines.push("set "@ + name + "="@ + value), dp0);
            &&& vars.dom().contains(capitals(name)) && vars[capitals(name)] == value
            &&& other != capitals(name) ==> vars.dom().contains(other) == bindings(
                lines,
                dp0,
            ).dom().contains(other) && vars[other] == bindings(lines, dp0)[other]
        }),
        setting(line) is None ==> bindings(lines.push(line), dp0) == bindings(lines, dp0),
{
    assignments_are_read(name, value, line);
    let set = "set "@ + name + "="@ + value;
    assert(lines.push(set).drop_last() =~= lines);
    assert(lines.push(line).drop_last() =~= lines);
    reveal_strlit("%~dp0");
    crate::text::replacing_what_is_absent(value, "%~dp0"@, dp0);
}

/// A variable is put in where it stands: what precedes it stays, its value follows, and the
/// rest is read by itself. A name that is no variable stays with its marks, and a text
/// without marks stays as it is.
pub proof fn variables_are_put_in(
    p: Seq<char>,
    name: Seq<char>,
    q: Seq<char>,
    vars: Map<Seq<char>, Seq<char>>,
)
    requires
        !p.contains('%'),
        !name.contains('%'),
    ensures
        substituted(p, vars) == p,
        !substitutes(p, vars),
        vars.dom().contains(capitals(name)) ==> substituted(p + "%"@ + name + "%"@ + q, vars) == p
            + vars[capitals(name)] + substituted(q, vars),
        vars.dom().contains(capitals(name)) ==> substitutes(p + "%"@ + name + "%"@ + q, vars),
        !vars.dom().contains(capitals(name)) ==> substituted(p + "%"@ + name + "%"@ + q, vars) == p
            + "%"@ + name + "%"@ + substituted(q, vars),
        !vars.dom().contains(capitals(name)) ==> substitutes(p + "%"@ + name + "%"@ + q, vars)
            == substitutes(q, vars),
    decreases p.len(),
{
    reveal_strlit("%");
    assert("%"@ =~= seq!['%']);
    let s = p + "%"@ + name + "%"@ + q;
    if p.len() == 0 {
        assert(substituted(p, vars) =~= p);
        let t = name + seq!['%'] + q;
        assert(s.skip(1) =~= t);
        crate::text::lemma_find_char(name, '%', q);
        crate::text::lemma_find_skip(s, "%"@, 1);
        crate::text::lemma_find_from(s, "%"@, 1);
        let j = name.len() as int + 1;
        assert(closing(s) == Some(j)) by {
            match find_from(s, "%"@, 1) {
                None => {},
                Some(i) => {
                    assert(find(s.skip(1), "%"@) == Some(i - 1));
                },
            }
        }
        assert(s[0] == '%');
        assert(s.subrange(1, j) =~= name);
        assert(s.skip(j + 1) =~= q);
        assert(s.take(j + 1) =~= "%"@ + name + "%"@);
        if vars.dom().contains(capitals(name)) {
            assert(p + vars[capitals(name)] + substituted(q, vars) =~= vars[capitals(name)]
                + substituted(q, vars));
        } else {
            assert(p + "%"@ + name + "%"@ + substituted(q, vars) =~= s.take(j + 1) + substituted(
                q,
                vars,
            ));
        }
    } else {
        let r = p.skip(1);
        assert(p.contains(p[0]));
        assert(!r.contains('%')) by {
            if r.contains('%') {
                let i = choose|i: int| 0 <= i < r.len() && r[i] == '%';
                assert(p[i + 1] == '%');
            }
        }
        variables_are_put_in(r, name, q, vars);
        assert(seq![p[0]] + r =~= p);
        assert(s[0] == p[0]);
        assert(s.skip(1) =~= r + "%"@ + name + "%"@ + q);
        let more = substituted(q, vars);
        if vars.dom().contains(capitals(name)) {
            let v = vars[capitals(name)];
            assert(seq![p[0]] + (r + v + more) =~= p + v + more);
        } else {
            assert(seq![p[0]] + (r + "%"@ + name + "%"@ + more) =~= p + "%"@ + name + "%"@ + more);
        }
    }
}

/// The text that comes of a variable is the text round it with its value, also where the
/// value refers to another variable in turn; a name that is no variable stays, such as that
/// of the game filter.
pub proof fn variables_lead_to_their_values(
    p: Seq<char>,
    name: Seq<char>,
    q: Seq<char>,
    inner: Seq<char>,
    vars: Map<Seq<char>, Seq<char>>,
)
    requires
        !p.contains('%'),
        !name.contains('%'),
        !q.contains('%'),
        !inner.contains('%'),
    ensures
        expanded(p, vars, 10) == p,
        !vars.dom().contains(capitals(name)) ==> expanded(p + "%"@ + name + "%"@ + q, vars, 10) == p
            + "%"@ + name + "%"@ + q,
        vars.dom().contains(capitals(name)) && !vars[capitals(name)].contains('%') ==> expanded(
            p + "%"@ + name + "%"@ + q,
            vars,
            10,
        ) == p + vars[capitals(name)] + q,
        vars.dom().contains(capitals(name)) && vars.dom().contains(capitals(inner))
            && vars[capitals(name)] == "%"@ + inner + "%"@ && !vars[capitals(inner)].contains('%')
            ==> expanded(p + "%"@ + name + "%"@ + q, vars, 10) == p + vars[capitals(inner)] + q,
{
    reveal_with_fuel(expanded, 4);
    let s = p + "%"@ + name + "%"@ + q;
    variables_are_put_in(p, name, q, vars);
    variables_are_put_in(q, inner, q, vars);
    if vars.dom().contains(capitals(name)) {
        let v = vars[capitals(name)];
        if !v.contains('%') {
            let t = p + v + q;
            lemma_lacks_percent(p, v, q);
            variables_are_put_in(t, inner, q, vars);
        }
        if vars.dom().contains(capitals(inner)) && v == "%"@ + inner + "%"@
            && !vars[capitals(inner)].contains('%') {
            let w = vars[capitals(inner)];
            let t = p + v + q;
            assert(t =~= p + "%"@ + inner + "%"@ + q);
            variables_are_put_in(p, inner, q, vars);
            let u = p + w + q;
            lemma_lacks_percent(p, w, q);
            variables_are_put_in(u, inner, q, vars);
            assert(substituted(s, vars) == t);
            assert(substituted(t, vars) == u);
            assert(expanded(u, vars, 8) == u);
            assert(expanded(t, vars, 9) == u);
        }
    }
}

proof fn lemma_lacks_percent(p: Seq<char>, v: Seq<char>, q: Seq<char>)
    requires
        !p.contains('%'),
        !v.contains('%'),
        !q.contains('%'),
    ensures
        !(p + v + q).contains('%'),
{
    let t = p + v + q;
    if t.contains('%') {
        let i = choose|i: int| 0 <= i < t.len() && t[i] == '%';
        if i < p.len() {
            assert(p[i] == '%');
        } else if i < p.len() + v.len() {
            assert(v[i - p.len()] == '%');
        } else {
            assert(q[i - p.len() - v.len()] == '%');
        }
    }
}

/// The arguments of a call are all that follows the name of the program, in any letter
/// case, whatever path precedes it; the quotation mark that closes the path is not among
/// them.
pub proof fn arguments_follow_the_program(p: Seq<char>, exe: Seq<char>, a: Seq<char>)
    requires
        lowered(exe) == "winws.exe"@,
        a.len() > 0,
        !is_white(a[0]),
        !is_white(a.last()),
        a[0] != '"',
        forall|j: int|
            0 <= j < p.len() ==> !crate::text::at(lowered(p + exe + " "@ + a), j, "winws.exe"@),
        forall|j: int|
            0 <= j < p.len() ==> !crate::text::at(lowered(p + exe + "\" "@ + a), j, "winws.exe"@),
    ensures
        args_after_winws(p + exe + " "@ + a) == a,
        args_after_winws(p + exe + "\" "@ + a) == a,
{
    reveal_strlit("winws.exe");
    reveal_strlit(" ");
    reveal_strlit("\" ");
    let none = Seq::<char>::empty();
    let n = p.len() as int;
    assert(exe.len() == lowered(exe).len());
    let s = p + exe + " "@ + a;
    assert(p + exe + (" "@ + a) =~= s);
    lemma_program_at(p, exe, " "@ + a);
    assert(s.skip(n + 9) =~= " "@ + a + none);
    crate::text::trimming_takes_off_the_ends(" "@, a, none, whites());
    assert(a + none =~= a);
    assert(trim_start_by(a, only('"')) == a);
    assert(none + a + none =~= a);
    crate::text::trimming_takes_off_the_ends(none, a, none, whites());
    let t = p + exe + "\" "@ + a;
    assert(p + exe + ("\" "@ + a) =~= t);
    lemma_program_at(p, exe, "\" "@ + a);
    let r = t.skip(n + 9);
    assert(r =~= "\" "@ + a);
    assert(trim_start_by(r, whites()) == r);
    crate::text::lemma_trim_start(r, only('"'), 1);
    assert(r.skip(1) =~= " "@ + a + none);
}

proof fn lemma_program_at(p: Seq<char>, exe: Seq<char>, rest: Seq<char>)
    requires
        lowered(exe) == "winws.exe"@,
        forall|j: int|
            0 <= j < p.len() ==> !crate::text::at(lowered(p + exe + rest), j, "winws.exe"@),
    ensures
        find(lowered(p + exe + rest), "winws.exe"@) == Some(p.len() as int),
{
    reveal_strlit("winws.exe");
    let s = p + exe + rest;
    let n = p.len() as int;
    assert(exe.len() == lowered(exe).len());
    assert(lowered(s).subrange(n, n + 9) =~= lowered(exe));
    crate::text::lemma_find_at(lowered(s), "winws.exe"@, n);
}

/// The call is the first line that names the program, and there is none where no line does.
pub proof fn the_first_call_counts(lines: Seq<Seq<char>>, k: int)
    ensures
        0 <= k < lines.len() && contains(lowered(lines[k]), "winws.exe"@) && (forall|j: int|
            0 <= j < k ==> !contains(lowered(#[trigger] lines[j]), "winws.exe"@)) ==> winws_line(
            lines,
        ) == Some(lines[k]),
        (forall|j: int|
            0 <= j < lines.len() ==> !contains(lowered(#[trigger] lines[j]), "winws.exe"@))
            <==> winws_line(lines) is None,
    decreases lines.len(),
{
    if lines.len() > 0 && !contains(lowered(lines[0]), "winws.exe"@) {
        let t = lines.skip(1);
        the_first_call_counts(t, k - 1);
        assert forall|j: int| 0 <= j < t.len() implies t[j] == #[trigger] lines[j + 1] by {}
        if forall|j: int| 0 <= j < t.len() ==> !contains(lowered(#[trigger] t[j]), "winws.exe"@) {
            assert forall|j: int| 0 <= j < lines.len() implies !contains(
                lowered(#[trigger] lines[j]),
                "winws.exe"@,
            ) by {
                if j > 0 {
                    assert(t[j - 1] == lines[j]);
                }
            }
        }
    }
}

/// A text that the reading of a batch file takes as it is: no marks of variables, quotes or
/// line breaks, and no white space or `^` at its ends.
pub open spec fn is_simple_call(a: Seq<char>) -> bool {
    &&& a.len() > 0
    &&& !is_white(a[0]) && !is_white(a.last()) && a.last() != '^'
    &&& !a.contains('"') && !a.contains('%') && !a.contains('\n')
}

/// A file that holds one plain call gives the words behind the program as its tokens, and
/// what stands there as the argument string.
pub proof fn a_plain_call_gives_its_words(a: Seq<char>, dp0: Seq<char>)
    requires
        is_simple_call(a),
    ensures
        words_of(a).len() > 0,
        winws_tokens("winws.exe "@ + a, dp0) == Ok::<(Seq<Seq<char>>, Seq<char>), Seq<char>>(
            (words_of(a), a),
        ),
{
    reveal_strlit("winws.exe ");
    reveal_strlit("winws.exe");
    reveal_strlit(" ");
    reveal_strlit("^");
    reveal_strlit("%~dp0");
    reveal_strlit("rem");
    let none = Seq::<char>::empty();
    let empty = Seq::<Seq<char>>::empty();
    let exe = "winws.exe"@;
    let text = "winws.exe "@ + a;
    assert(text =~= none + exe + " "@ + a);
    assert(!text.contains('\n')) by {
        if text.contains('\n') {
            let i = choose|i: int| 0 <= i < text.len() && text[i] == '\n';
            if i >= 10 {
                assert(a[i - 10] == '\n');
            }
        }
    }
    crate::text::line_breaks_end_lines(text, none);
    assert(!begins(lowered(text), "rem"@)) by {
        if begins(lowered(text), "rem"@) {
            assert(lowered(text).take(3)[0] == crate::text::lower(text[0]));
        }
    }
    only_comments_leave(empty, empty, none, text);
    assert(none + text =~= text);
    assert(text.last() == a.last());
    carets_join_lines(text, none, a, empty);
    assert(text + none =~= text);
    assert(seq![text] + empty =~= seq![text]);
    let ls = logical_lines(text);
    assert(ls =~= seq![text]);
    assert(lowered(exe) =~= exe);
    arguments_follow_the_program(none, exe, a);
    lemma_program_at(none, exe, " "@ + a);
    assert(none + exe + (" "@ + a) =~= text);
    crate::text::find_is_least(lowered(text), exe);
    the_first_call_counts(ls, 0);
    assert(none + a + none =~= a);
    crate::text::trimming_takes_off_the_ends(none, a, none, whites());
    assert(!contains(a, "%~dp0"@)) by {
        if contains(a, "%~dp0"@) {
            let i = choose|i: int| crate::text::at(a, i, "%~dp0"@);
            assert(a.subrange(i, i + 5)[0] == a[i]);
        }
    }
    crate::text::replacing_what_is_absent(a, "%~dp0"@, dp0);
    variables_lead_to_their_values(a, none, none, none, bindings(ls, dp0));
    arguments_without_quotes_are_words(a);
    lemma_some_word(a);
}

/// A file that holds one plain call is read as the strategy of that call: its arguments are
/// the words behind the program, without those that name the ports to capture, and it keeps
/// the name and the path that it was read under. Where nothing else is left there is none.
pub proof fn a_plain_call_is_read(
    path: Seq<char>,
    name: Seq<char>,
    a: Seq<char>,
    core: Seq<char>,
)
    requires
        is_simple_call(a),
    ensures
        ({
            let args = engine_args(words_of(a));
            let r = flowseal(path, name, "winws.exe "@ + a, core);
            &&& args.len() == 0 ==> r is Err
            &&& args.len() > 0 ==> {
                &&& r matches Ok(s)
                &&& s.name == name && s.source_path == path
                &&& s.group == group_name(small_case(name))
                &&& s.args == args && s.raw_args == joined(args, " "@)
                &&& s.wf_tcp == flagged_ports(words_of(a), "--wf-tcp="@)
                &&& s.wf_udp == flagged_ports(words_of(a), "--wf-udp="@)
            }
        }),
{
    a_plain_call_gives_its_words(a, core + "/"@);
}

proof fn lemma_some_word(a: Seq<char>)
    requires
        a.len() > 0,
        !is_white(a[0]),
    ensures
        words_of(a).len() > 0,
{
    assert(trim_start_by(a, whites()) == a);
}

// ── What holds of groups, order and names ───────────────────────────────────

proof fn lemma_holds(p: Seq<char>, w: Seq<char>, q: Seq<char>, small: Seq<char>)
    requires
        lowered(w) == small,
        crate::text::all_ascii(p + w + q),
    ensures
        contains(small_case(p + w + q), small),
{
    let s = p + w + q;
    let n = p.len() as int;
    assert(w.len() == lowered(w).len());
    assert(lowered(s).subrange(n, n + small.len()) =~= lowered(w));
    assert(crate::text::at(lowered(s), n, small));
}

/// The name of a file tells the group, wherever the word stands in it: `FAKE TLS` before
/// `Simple Fake`, and that before `ALT`. A name with none of them belongs to `general`.
pub proof fn names_tell_groups(p: Seq<char>, q: Seq<char>, name: Seq<char>)
    ensures
        crate::text::all_ascii(p + "FAKE TLS"@ + q) ==> group_name(
            small_case(p + "FAKE TLS"@ + q),
        ) == "FAKE TLS"@,
        crate::text::all_ascii(p + "SIMPLE FAKE"@ + q) && !contains(
            small_case(p + "SIMPLE FAKE"@ + q),
            "fake tls"@,
        ) ==> group_name(small_case(p + "SIMPLE FAKE"@ + q)) == "Simple Fake"@,
        crate::text::all_ascii(p + "ALT"@ + q) && !contains(
            small_case(p + "ALT"@ + q),
            "fake"@,
        ) ==> group_name(small_case(p + "ALT"@ + q)) == "ALT"@,
        !contains(small_case(name), "fake"@) && !contains(small_case(name), "alt"@) ==> group_name(
            small_case(name),
        ) == "general"@,
{
    reveal_strlit("FAKE TLS");
    reveal_strlit("SIMPLE FAKE");
    reveal_strlit("ALT");
    reveal_strlit("fake tls");
    reveal_strlit("simple fake");
    reveal_strlit("alt");
    reveal_strlit("fake");
    assert(lowered("FAKE TLS"@) =~= "fake tls"@);
    assert(lowered("SIMPLE FAKE"@) =~= "simple fake"@);
    assert(lowered("ALT"@) =~= "alt"@);
    if crate::text::all_ascii(p + "FAKE TLS"@ + q) {
        lemma_holds(p, "FAKE TLS"@, q, "fake tls"@);
    }
    if crate::text::all_ascii(p + "SIMPLE FAKE"@ + q) {
        lemma_holds(p, "SIMPLE FAKE"@, q, "simple fake"@);
    }
    if crate::text::all_ascii(p + "ALT"@ + q) {
        lemma_holds(p, "ALT"@, q, "alt"@);
    }
    lemma_fake_within(small_case(p + "ALT"@ + q));
    lemma_fake_within(small_case(name));
}

proof fn lemma_fake_within(s: Seq<char>)
    ensures
        contains(s, "fake tls"@) || contains(s, "simple fake"@) ==> contains(s, "fake"@),
{
    reveal_strlit("fake tls");
    reveal_strlit("simple fake");
    reveal_strlit("fake");
    if contains(s, "fake tls"@) {
        let i = choose|i: int| crate::text::at(s, i, "fake tls"@);
        assert(s.subrange(i, i + 4) =~= s.subrange(i, i + 8).take(4));
        assert("fake tls"@.take(4) =~= "fake"@);
        assert(crate::text::at(s, i, "fake"@));
    } else if contains(s, "simple fake"@) {
        let i = choose|i: int| crate::text::at(s, i, "simple fake"@);
        assert(s.subrange(i + 7, i + 11) =~= s.subrange(i, i + 11).skip(7));
        assert("simple fake"@.skip(7) =~= "fake"@);
        assert(crate::text::at(s, i + 7, "fake"@));
    }
}

/// The groups come in the order `general`, `ALT`, `FAKE TLS`, `Simple Fake` and then all
/// others, and a strategy of an earlier group comes first whatever the names are.
pub proof fn groups_come_in_order(a: StrategyView, b: StrategyView, other: Seq<char>)
    ensures
        rank_of("general"@) < rank_of("ALT"@) < rank_of("FAKE TLS"@) < rank_of("Simple Fake"@),
        other != "general"@ && other != "ALT"@ && other != "FAKE TLS"@ && other != "Simple Fake"@
            ==> rank_of(other) > rank_of("Simple Fake"@),
        rank_of(a.group) < rank_of(b.group) ==> crate::order::key_lt(
            strategy_key(a),
            strategy_key(b),
        ),
        a.group == b.group ==> crate::order::key_lt(strategy_key(a), strategy_key(b))
            == crate::order::parts_lt(natural(a.name), natural(b.name)),
{
    reveal_strlit("general");
    reveal_strlit("ALT");
    reveal_strlit("FAKE TLS");
    reveal_strlit("Simple Fake");
    assert("general"@.len() == 7 && "ALT"@.len() == 3);
    assert("FAKE TLS"@.len() == 8 && "Simple Fake"@.len() == 11);
}

proof fn lemma_counted_two(a: Seq<char>, b: Seq<char>)
    ensures
        counted(a + b) == counted(a) + counted(b),
    decreases b.len(),
{
    if b.len() == 0 {
        assert(a + b =~= a);
        assert(counted(a) + counted(b) =~= counted(a));
    } else {
        lemma_counted_two(a, b.drop_last());
        assert((a + b).drop_last() =~= a + b.drop_last());
        assert((a + b).last() == b.last());
        assert(counted(a + b) =~= counted(a) + counted(b));
    }
}

proof fn lemma_counted_digits(d: Seq<char>)
    requires
        crate::text::all_digits(d),
    ensures
        counted(d) == d,
        lowered(d) == d,
    decreases d.len(),
{
    assert(lowered(d) =~= d);
    if d.len() > 0 {
        let t = d.drop_last();
        assert forall|i: int| 0 <= i < t.len() implies is_digit(#[trigger] t[i]) by {
            assert(t[i] == d[i]);
        }
        lemma_counted_digits(t);
        assert(is_digit(d[d.len() - 1]));
        assert(t.push(d.last()) =~= d);
    } else {
        assert(counted(d) =~= d);
    }
}

proof fn lemma_runs_two(s: Seq<char>, r: Seq<char>)
    requires
        s.len() > 0 && r.len() > 0 ==> is_digit(s.last()) != is_digit(r[0]),
    ensures
        runs(s + r) == runs(s) + runs(r),
    decreases s.len(),
{
    let all = s + r;
    if s.len() == 0 {
        assert(all =~= r);
        assert(runs(s) + runs(r) =~= runs(r));
    } else if r.len() == 0 {
        assert(all =~= s);
        assert(runs(s) + runs(r) =~= runs(s));
    } else {
        let d = is_digit(s[0]);
        lemma_run_is(s, d);
        let k = run_len(s, d) as int;
        assert(all[0] == s[0]);
        assert forall|i: int| 0 <= i < k implies is_digit(#[trigger] all[i]) == d by {
            assert(all[i] == s[i]);
        }
        if k < s.len() {
            assert(all[k] == s[k]);
        } else {
            assert(s.last() == s[k - 1]);
            assert(all[k] == r[0]);
        }
        lemma_run_len_is(all, d, k);
        assert(all.take(k) =~= s.take(k));
        let t = s.skip(k);
        assert(all.skip(k) =~= t + r);
        if t.len() > 0 {
            assert(t.last() == s.last());
        }
        lemma_runs_two(t, r);
        let part = runs(s)[0];
        assert(runs(s) =~= seq![part] + runs(t));
        assert(runs(all) =~= seq![part] + runs(t + r));
        assert(runs(all) =~= runs(s) + runs(r));
    }
}

proof fn lemma_run_is(s: Seq<char>, d: bool)
    ensures
        run_len(s, d) <= s.len(),
        s.len() > 0 && is_digit(s[0]) == d ==> run_len(s, d) > 0,
        forall|i: int| 0 <= i < run_len(s, d) ==> is_digit(#[trigger] s[i]) == d,
        run_len(s, d) < s.len() ==> is_digit(s[run_len(s, d) as int]) != d,
    decreases s.len(),
{
    if s.len() > 0 && is_digit(s[0]) == d {
        let t = s.skip(1);
        lemma_run_is(t, d);
        assert forall|i: int| 0 <= i < run_len(s, d) implies is_digit(#[trigger] s[i]) == d by {
            if i > 0 {
                assert(t[i - 1] == s[i]);
            }
        }
    }
}

proof fn lemma_runs_of_number(n: nat)
    requires
        n <= u64::MAX,
    ensures
        runs(decimal(n)) == seq![(n, Seq::<char>::empty())],
{
    let d = decimal(n);
    crate::text::lemma_decimal(n);
    crate::text::decimal_reads_back(n, u64::MAX as nat);
    lemma_run_len_is(d, true, d.len() as int);
    assert(is_digit(d[0]));
    assert(d.take(d.len() as int) =~= d);
    assert(d.skip(d.len() as int) =~= Seq::empty());
    assert(runs(Seq::<char>::empty()) =~= Seq::empty());
    assert(runs(d) =~= seq![(n, Seq::<char>::empty())]);
}

proof fn lemma_parts_after(
    c: Seq<PartView>,
    a: Seq<PartView>,
    b: Seq<PartView>,
)
    ensures
        crate::order::parts_lt(c + a, c + b) == crate::order::parts_lt(a, b),
    decreases c.len(),
{
    if c.len() == 0 {
        assert(c + a =~= a);
        assert(c + b =~= b);
    } else {
        lemma_parts_after(c.skip(1), a, b);
        assert((c + a).skip(1) =~= c.skip(1) + a);
        assert((c + b).skip(1) =~= c.skip(1) + b);
        assert((c + a)[0] == c[0] && (c + b)[0] == c[0]);
    }
}

/// Whether a number can be read between `p` and `q`: neither what counts of `p` ends with a
/// digit, nor what counts of `q` begins with one.
pub open spec fn frames_a_number(p: Seq<char>, q: Seq<char>) -> bool {
    &&& crate::text::all_ascii(p) && crate::text::all_ascii(q)
    &&& counted(lowered(p)).len() > 0 ==> !is_digit(counted(lowered(p)).last())
    &&& counted(lowered(q)).len() > 0 ==> !is_digit(counted(lowered(q))[0])
}

/// Names that differ in a number come in the order of the number, and the name without one
/// comes before them: `ALT` before `ALT2` before `ALT10`.
pub proof fn numbers_compare_as_numbers(p: Seq<char>, m: nat, n: nat, q: Seq<char>)
    requires
        frames_a_number(p, q),
        m < n <= u64::MAX,
    ensures
        crate::order::parts_lt(natural(p + decimal(m) + q), natural(p + decimal(n) + q)),
        counted(lowered(q)).len() == 0 ==> crate::order::parts_lt(
            natural(p + q),
            natural(p + decimal(n) + q),
        ),
{
    lemma_natural_with_number(p, m, q);
    lemma_natural_with_number(p, n, q);
    let head = runs(counted(lowered(p)));
    let tail = runs(counted(lowered(q)));
    let none = Seq::<char>::empty();
    let x = seq![(m, none)] + tail;
    let y = seq![(n, none)] + tail;
    assert(x[0] == (m, none) && y[0] == (n, none));
    lemma_parts_after(head, x, y);
    if counted(lowered(q)).len() == 0 {
        let s = p + q;
        assert(crate::text::all_ascii(s));
        assert(lowered(s) =~= lowered(p) + lowered(q));
        lemma_counted_two(lowered(p), lowered(q));
        assert(counted(lowered(q)) =~= Seq::empty());
        assert(counted(lowered(s)) =~= counted(lowered(p)));
        lemma_parts_after(head, Seq::empty(), y);
        assert(head + Seq::<PartView>::empty() =~= head);
    }
}

proof fn lemma_natural_with_number(p: Seq<char>, n: nat, q: Seq<char>)
    requires
        frames_a_number(p, q),
        n <= u64::MAX,
    ensures
        natural(p + decimal(n) + q) == runs(counted(lowered(p))) + (seq![
            (n, Seq::<char>::empty()),
        ] + runs(counted(lowered(q)))),
{
    let d = decimal(n);
    let s = p + d + q;
    crate::text::lemma_decimal(n);
    assert(crate::text::all_ascii(s)) by {
        assert forall|i: int| 0 <= i < s.len() implies (#[trigger] s[i] as u32) < 128 by {
            if i < p.len() {
                assert(s[i] == p[i]);
            } else if i < p.len() + d.len() {
                assert(s[i] == d[i - p.len()]);
                assert(is_digit(d[i - p.len()]));
            } else {
                assert(s[i] == q[i - p.len() - d.len()]);
            }
        }
    }
    lemma_counted_digits(d);
    assert(lowered(s) =~= lowered(p) + d + lowered(q));
    lemma_counted_two(lowered(p) + d, lowered(q));
    lemma_counted_two(lowered(p), d);
    let a = counted(lowered(p));
    let b = counted(lowered(q));
    assert(is_digit(d[0]) && is_digit(d[d.len() - 1]));
    lemma_runs_of_number(n);
    lemma_runs_two(d, b);
    assert((d + b)[0] == d[0]);
    lemma_runs_two(a, d + b);
    assert(a + d + b =~= a + (d + b));
}

/// Letter case, spaces and punctuation do not matter to the order of names.
pub proof fn punctuation_does_not_matter(a: Seq<char>, c: char, b: Seq<char>)
    requires
        crate::text::all_ascii(a),
        crate::text::all_ascii(b),
        (c as u32) < 128,
        !('0' <= c <= '9') && !('a' <= c <= 'z') && !('A' <= c <= 'Z'),
    ensures
        natural(a + seq![c] + b) == natural(a + b),
        natural(lowered(a)) == natural(a),
{
    let s = a + seq![c] + b;
    let t = a + b;
    assert(crate::text::all_ascii(s));
    assert(crate::text::all_ascii(t));
    assert(lowered(seq![c]) =~= seq![c]);
    assert(lowered(s) =~= lowered(a) + seq![c] + lowered(b));
    assert(lowered(t) =~= lowered(a) + lowered(b));
    lemma_counted_two(lowered(a) + seq![c], lowered(b));
    lemma_counted_two(lowered(a), seq![c]);
    lemma_counted_two(lowered(a), lowered(b));
    reveal_with_fuel(counted, 2);
    assert(seq![c].drop_last() =~= Seq::empty());
    assert(counted(seq![c]) =~= Seq::empty());
    assert(counted(lowered(a)) + Seq::<char>::empty() =~= counted(lowered(a)));
    crate::text::lowering_changes_capitals_only(a, b);
    assert(crate::text::all_ascii(lowered(a))) by {
        assert forall|i: int| 0 <= i < lowered(a).len() implies (#[trigger] lowered(a)[i] as u32)
            < 128 by {
            assert((a[i] as u32) < 128);
        }
    }
}

/// The position of the last dot is that of the dot behind which none stands.
pub proof fn the_last_dot_is_found(a: Seq<char>, e: Seq<char>)
    requires
        !e.contains('.'),
    ensures
        last_dot(a + seq!['.'] + e) == Some(a.len() as int),
        last_dot(e) is None,
    decreases e.len(),
{
    let s = a + seq!['.'] + e;
    if e.len() == 0 {
        assert(s.last() == '.');
    } else {
        let f = e.drop_last();
        assert(e.contains(e.last()));
        assert(!f.contains('.')) by {
            if f.contains('.') {
                let i = choose|i: int| 0 <= i < f.len() && f[i] == '.';
                assert(e[i] == '.');
            }
        }
        the_last_dot_is_found(a, f);
        assert(s.drop_last() =~= a + seq!['.'] + f);
        assert(s.last() == e.last());
    }
}

/// A strategy has the name of its file without the last extension; a file whose only dot is
/// its first character keeps its whole name, and so does one without a dot.
pub proof fn strategies_are_named_after_files(a: Seq<char>, e: Seq<char>)
    requires
        !e.contains('.'),
        a != seq!['.'] || e.len() > 0,
    ensures
        a.len() > 0 ==> strategy_name(Some(a + "."@ + e)) == a,
        strategy_name(Some("."@ + e)) == "."@ + e,
        strategy_name(Some(e)) == e,
        strategy_name(None) == "strategy"@,
{
    reveal_strlit(".");
    reveal_strlit("..");
    assert("."@ =~= seq!['.']);
    the_last_dot_is_found(a, e);
    the_last_dot_is_found(Seq::empty(), e);
    assert(Seq::<char>::empty() + seq!['.'] + e =~= "."@ + e);
    let s = a + "."@ + e;
    assert(s.take(a.len() as int) =~= a);
    if s == ".."@ && a.len() > 0 {
        assert(a.len() == 1);
        assert(a[0] == s[0]);
        assert(a =~= seq!['.']);
    }
}

/// The files that hold strategies are exactly those whose names begin with `general` and
/// end with the extension `bat`, in any letter case.
pub proof fn strategies_are_found_by_name(x: Seq<char>, e: Seq<char>)
    requires
        !e.contains('.'),
    ensures
        general_bat("general"@ + x + ".bat"@),
        general_bat("GENERAL"@ + x + ".BAT"@),
        general_bat("general"@ + x + "."@ + e) <==> lowered(e) == "bat"@,
        !general_bat(e),
        x.len() > 0 && x[0] != 'g' && x[0] != 'G' ==> !general_bat(x + ".bat"@),
{
    reveal_strlit("general");
    reveal_strlit("GENERAL");
    reveal_strlit(".bat");
    reveal_strlit(".BAT");
    reveal_strlit("bat");
    reveal_strlit("BAT");
    reveal_strlit(".");
    assert("."@ =~= seq!['.']);
    let g = "general"@ + x;
    let h = "GENERAL"@ + x;
    the_last_dot_is_found(g, e);
    the_last_dot_is_found(g, "bat"@);
    the_last_dot_is_found(h, "BAT"@);
    assert("general"@ + x + ".bat"@ =~= g + seq!['.'] + "bat"@);
    assert("GENERAL"@ + x + ".BAT"@ =~= h + seq!['.'] + "BAT"@);
    let s = g + seq!['.'] + e;
    let b = g + seq!['.'] + "bat"@;
    let c = h + seq!['.'] + "BAT"@;
    assert(lowered(s).take(7) =~= "general"@);
    assert(lowered(b).take(7) =~= "general"@);
    assert(lowered(c).take(7) =~= "general"@);
    assert(s.skip(g.len() as int + 1) =~= e);
    assert(b.skip(g.len() as int + 1) =~= "bat"@);
    assert(c.skip(h.len() as int + 1) =~= "BAT"@);
    assert(lowered("bat"@) =~= "bat"@);
    assert(lowered("BAT"@) =~= "bat"@);
    if x.len() > 0 && x[0] != 'g' && x[0] != 'G' {
        let y = x + ".bat"@;
        if begins(lowered(y), "general"@) {
            assert(lowered(y).take(7)[0] == crate::text::lower(x[0]));
        }
    }
}

proof fn lemma_started_gives_one(s: Seq<char>, cur: Seq<char>, quoted: bool)
    ensures
        arguments(s, cur, quoted, true).len() > 0,
    decreases s.len(),
{
    if s.len() > 0 {
        if s[0] == '"' {
            lemma_started_gives_one(s.skip(1), cur, !quoted);
        } else if is_white(s[0]) && !quoted {
        } else {
            lemma_started_gives_one(s.skip(1), cur.push(s[0]), quoted);
        }
    }
}

proof fn lemma_no_dp0(p: Seq<char>, name: Seq<char>, q: Seq<char>)
    requires
        !p.contains('%'),
        !name.contains('%'),
        !q.contains('%'),
        name.len() > 0,
        name[0] != '~',
        q.len() > 0,
        q[0] != '~',
    ensures
        !contains(p + "%"@ + name + "%"@ + q, "%~dp0"@),
{
    reveal_strlit("%");
    reveal_strlit("%~dp0");
    let a = p + "%"@ + name + "%"@ + q;
    if contains(a, "%~dp0"@) {
        let i = choose|i: int| crate::text::at(a, i, "%~dp0"@);
        let t = a.subrange(i, i + 5);
        assert(t[0] == a[i] && t[1] == a[i + 1]);
        let n = p.len() as int;
        let m = n + 1 + name.len();
        if i < n {
            assert(p[i] == '%');
        } else if i == n {
            assert(a[i + 1] == name[0]);
        } else if i < m {
            assert(name[i - n - 1] == '%');
        } else if i == m {
            assert(a[i + 1] == q[0]);
        } else {
            assert(q[i - m - 1] == '%');
        }
    }
}

/// A variable of the file leads below the directory of the core: `%~dp0` in its value is that
/// directory, and what the call says with the variable it says with the whole path. Another
/// line before the call changes nothing else.
pub proof fn variables_lead_below_the_core(
    name: Seq<char>,
    dir: Seq<char>,
    p: Seq<char>,
    q: Seq<char>,
    dp0: Seq<char>,
)
    requires
        name.len() > 0 && is_plain(name) && name[0] != '~',
        !name.contains('=') && !name.contains('%') && !name.contains('\n'),
        dir.len() > 0 && is_plain(dir) && dir.last() != '^',
        !dir.contains('%') && !dir.contains('\n'),
        !dp0.contains('%'),
        p.len() > 0 && !is_white(p[0]) && p[0] != '"',
        !p.contains('%') && !p.contains('\n'),
        q.len() > 0 && !is_white(q.last()) && q.last() != '^' && q[0] != '~',
        !q.contains('%') && !q.contains('\n'),
        !contains(lowered("set "@ + name + "="@ + ("%~dp0"@ + dir)), "winws.exe"@),
    ensures
        ({
            let set = "set "@ + name + "="@ + ("%~dp0"@ + dir);
            let call = "winws.exe "@ + (p + "%"@ + name + "%"@ + q);
            &&& winws_tokens(set + seq!['\n'] + call, dp0) matches Ok(r)
            &&& r.0 == arguments(p + (dp0 + dir) + q, Seq::empty(), false, false)
            &&& r.1 == p + "%"@ + name + "%"@ + q
        }),
{
    let none = Seq::<char>::empty();
    let value = "%~dp0"@ + dir;
    let set = "set "@ + name + "="@ + value;
    let a = p + "%"@ + name + "%"@ + q;
    let call = "winws.exe "@ + a;
    let text = set + seq!['\n'] + call;
    assert(value.last() == dir.last());
    assert(!set.contains('\n') && !call.contains('\n')) by {
        reveal_strlit("set ");
        reveal_strlit("=");
        reveal_strlit("%");
        reveal_strlit("%~dp0");
        reveal_strlit("winws.exe ");
        if set.contains('\n') {
            let i = choose|i: int| 0 <= i < set.len() && set[i] == '\n';
            let n = 4 + name.len() as int;
            if 4 <= i < n {
                assert(name[i - 4] == '\n');
            } else if i >= n + 6 {
                assert(dir[i - n - 6] == '\n');
            }
        }
        if call.contains('\n') {
            let i = choose|i: int| 0 <= i < call.len() && call[i] == '\n';
            let n = 10 + p.len() as int;
            let m = n + 1 + name.len();
            if 10 <= i < n {
                assert(p[i - 10] == '\n');
            } else if n < i < m {
                assert(name[i - n - 1] == '\n');
            } else if i > m {
                assert(q[i - m - 1] == '\n');
            }
        }
    }
    lemma_set_and_call(name, value, a);
    let ls = logical_lines(text);
    // The call.
    assert(lowered("winws.exe"@) =~= "winws.exe"@) by {
        reveal_strlit("winws.exe");
    }
    assert(call =~= none + "winws.exe"@ + " "@ + a) by {
        reveal_strlit("winws.exe ");
        reveal_strlit("winws.exe");
        reveal_strlit(" ");
    }
    arguments_follow_the_program(none, "winws.exe"@, a);
    assert(none + "winws.exe"@ + (" "@ + a) =~= call);
    lemma_program_at(none, "winws.exe"@, " "@ + a);
    crate::text::find_is_least(lowered(call), "winws.exe"@);
    assert(ls[0] == set && ls[1] == call);
    the_first_call_counts(ls, 1);
    assert(none + a + none =~= a);
    crate::text::trimming_takes_off_the_ends(none, a, none, whites());
    lemma_no_dp0(p, name, q);
    assert("%~dp0"@.len() == 5) by {
        reveal_strlit("%~dp0");
    }
    crate::text::replacing_what_is_absent(a, "%~dp0"@, dp0);
    // The variable.
    assert(value =~= none + "%~dp0"@ + dir);
    assert forall|j: int| 0 <= j < none.len() implies !crate::text::at(
        none + "%~dp0"@ + dir,
        j,
        "%~dp0"@,
    ) by {}
    crate::text::replacing_takes_the_first(none, "%~dp0"@, dp0, dir);
    assert(!contains(dir, "%~dp0"@)) by {
        reveal_strlit("%~dp0");
        if contains(dir, "%~dp0"@) {
            let i = choose|i: int| crate::text::at(dir, i, "%~dp0"@);
            assert(dir.subrange(i, i + 5)[0] == dir[i]);
        }
    }
    crate::text::replacing_what_is_absent(dir, "%~dp0"@, dp0);
    let path = dp0 + dir;
    assert(none + dp0 + dir =~= path);
    assert(replaced(value, "%~dp0"@, dp0) == path);
    assert(is_plain(value)) by {
        reveal_strlit("%~dp0");
    }
    assert(call[0] == 'w') by {
        reveal_strlit("winws.exe ");
    }
    assignments_are_read(name, value, call);
    let vars = bindings(ls, dp0);
    assert(ls.drop_last() =~= seq![set]);
    assert(seq![set].drop_last() =~= Seq::empty());
    reveal_with_fuel(bindings, 3);
    assert(vars == Map::<Seq<char>, Seq<char>>::empty().insert(capitals(name), path));
    lemma_lacks_percent(dp0, dir, none);
    assert(dp0 + dir + none =~= path);
    variables_lead_to_their_values(p, name, q, none, vars);
    let full = p + path + q;
    assert(full[0] == p[0]);
    lemma_started_gives_one(full.skip(1), none.push(full[0]), false);
}

proof fn lemma_set_and_call(name: Seq<char>, value: Seq<char>, a: Seq<char>)
    requires
        value.len() > 0 && !is_white(value.last()) && value.last() != '^',
        a.len() > 0 && !is_white(a.last()) && a.last() != '^',
        !("set "@ + name + "="@ + value).contains('\n'),
        !("winws.exe "@ + a).contains('\n'),
    ensures
        logical_lines(("set "@ + name + "="@ + value) + seq!['\n'] + ("winws.exe "@ + a)) == seq![
            "set "@ + name + "="@ + value,
            "winws.exe "@ + a,
        ],
{
    let none = Seq::<char>::empty();
    let empty = Seq::<Seq<char>>::empty();
    let set = "set "@ + name + "="@ + value;
    let call = "winws.exe "@ + a;
    assert(set.last() == value.last());
    assert(call.last() == a.last());
    crate::text::line_breaks_end_lines(set, call);
    crate::text::line_breaks_end_lines(call, none);
    assert(seq![set] + seq![call] =~= seq![set, call]);
    assert(set[0] == 's' && call[0] == 'w') by {
        reveal_strlit("set ");
        reveal_strlit("winws.exe ");
    }
    only_comments_leave(seq![set], seq![call], none, set);
    only_comments_leave(seq![set], seq![call], none, call);
    assert(none + set =~= set && none + call =~= call);
    carets_join_lines(set, none, a, seq![call]);
    carets_join_lines(call, none, a, empty);
    assert(set + none =~= set && call + none =~= call);
    assert(seq![call] + empty =~= seq![call]);
    assert(glued(seq![set] + seq![call], none) =~= seq![set, call]);
}

} // verus!
