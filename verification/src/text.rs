//! Text primitives on `&str`, specified over the sequence of characters of a string.
//!
//! Every function here states its result as a short function of `s@`. Positions are
//! character positions, never byte positions, so no slice can fall inside a character.
use vstd::prelude::*;

verus! {

// ── Strings as character sequences ──────────────────────────────────────────

/// `String::push` appends one character to the end of the string. The contract claims
/// exactly that: the old characters, then the new one.
pub assume_specification[ String::push ](s: &mut String, c: char)
    ensures
        final(s)@ == old(s)@.push(c),
;

/// The characters of each string of a list.
pub open spec fn texts(v: Seq<String>) -> Seq<Seq<char>> {
    Seq::new(v.len(), |i: int| v[i]@)
}

/// The characters of each string slice of a list.
pub open spec fn slices(v: Seq<&str>) -> Seq<Seq<char>> {
    Seq::new(v.len(), |i: int| v[i]@)
}

/// The characters of an optional string.
pub open spec fn opt_text(o: Option<String>) -> Option<Seq<char>> {
    match o {
        Some(s) => Some(s@),
        None => None,
    }
}

/// The characters of an optional string slice.
pub open spec fn opt_str(o: Option<&str>) -> Option<Seq<char>> {
    match o {
        Some(s) => Some(s@),
        None => None,
    }
}

/// The characters of `s`, in order.
pub fn chars_of(s: &str) -> (r: Vec<char>)
    ensures
        r@ == s@,
{
    let mut v: Vec<char> = Vec::new();
    for c in it: s.chars()
        invariant
            it.seq() == s@,
            v@ == s@.take(it.index() as int),
    {
        v.push(c);
        assert(s@.take(it.index() + 1) =~= s@.take(it.index() as int).push(c));
    }
    assert(s@.take(s@.len() as int) =~= s@);
    v
}

/// The string made of `v[i]`, ..., `v[j - 1]`.
pub fn piece(v: &Vec<char>, i: usize, j: usize) -> (r: String)
    requires
        i <= j <= v@.len(),
    ensures
        r@ == v@.subrange(i as int, j as int),
{
    let mut out = String::new();
    let mut k: usize = i;
    while k < j
        invariant
            i <= k <= j <= v@.len(),
            out@ == v@.subrange(i as int, k as int),
        decreases j - k,
    {
        out.push(v[k]);
        k += 1;
        assert(v@.subrange(i as int, k as int) =~= v@.subrange(i as int, k - 1).push(v@[k - 1]));
    }
    out
}

/// A list of string slices as a list of strings.
pub fn strings(parts: &[&str]) -> (r: Vec<String>)
    ensures
        texts(r@) == slices(parts@),
{
    let mut v: Vec<String> = Vec::new();
    let mut i: usize = 0;
    while i < parts.len()
        invariant
            i <= parts@.len(),
            v@.len() == i,
            forall|k: int| 0 <= k < i ==> (#[trigger] v@[k])@ == parts@[k]@,
        decreases parts@.len() - i,
    {
        v.push(parts[i].to_owned());
        i += 1;
    }
    assert(texts(v@) =~= slices(parts@));
    v
}

/// A copy of a list of strings.
pub fn copy_strings(list: &[String]) -> (r: Vec<String>)
    ensures
        texts(r@) == texts(list@),
{
    let mut v: Vec<String> = Vec::new();
    let mut i: usize = 0;
    while i < list.len()
        invariant
            i <= list@.len(),
            v@.len() == i,
            forall|k: int| 0 <= k < i ==> (#[trigger] v@[k])@ == list@[k]@,
        decreases list@.len() - i,
    {
        v.push(list[i].clone());
        i += 1;
    }
    assert(texts(v@) =~= texts(list@));
    v
}

/// A copy of an optional string.
pub fn copy_opt(o: &Option<String>) -> (r: Option<String>)
    ensures
        opt_text(r) == opt_text(*o),
{
    match o {
        Some(s) => Some(s.clone()),
        None => None,
    }
}

/// Whether two strings have the same characters.
pub fn same(a: &str, b: &str) -> (r: bool)
    ensures
        r == (a@ == b@),
{
    let x = chars_of(a);
    let y = chars_of(b);
    if x.len() != y.len() {
        return false;
    }
    let mut i: usize = 0;
    while i < x.len()
        invariant
            i <= x@.len(),
            x@.len() == y@.len(),
            x@ == a@,
            y@ == b@,
            forall|k: int| 0 <= k < i ==> x@[k] == y@[k],
        decreases x@.len() - i,
    {
        if x[i] != y[i] {
            return false;
        }
        i += 1;
    }
    assert(x@ =~= y@);
    true
}

/// Whether an optional string holds exactly the characters of `b`.
pub fn same_opt(a: &Option<String>, b: &str) -> (r: bool)
    ensures
        r == (opt_text(*a) == Some(b@)),
{
    match a {
        Some(s) => same(s.as_str(), b),
        None => false,
    }
}

/// The string `a` followed by the string `b`.
pub fn cat(a: &str, b: &str) -> (r: String)
    ensures
        r@ == a@ + b@,
{
    let mut s = a.to_owned();
    s.append(b);
    s
}

/// The string `a` followed by `b` and `c`.
pub fn cat3(a: &str, b: &str, c: &str) -> (r: String)
    ensures
        r@ == a@ + b@ + c@,
{
    let mut s = a.to_owned();
    s.append(b);
    s.append(c);
    s
}

/// `name` below the directory `dir`, with `/` between them where `dir` does not end with
/// one.
pub open spec fn below(dir: Seq<char>, name: Seq<char>) -> Seq<char> {
    if dir.len() == 0 || dir.last() == '/' {
        dir + name
    } else {
        dir + "/"@ + name
    }
}

/// `name`, which is relative, below the directory `dir`.
pub fn join_path(dir: &str, name: &str) -> (r: String)
    ensures
        r@ == below(dir@, name@),
{
    let v = chars_of(dir);
    if v.len() == 0 || v[v.len() - 1] == '/' {
        cat(dir, name)
    } else {
        cat3(dir, "/", name)
    }
}

// ── Character classes ───────────────────────────────────────────────────────

/// The Unicode `White_Space` property.
pub open spec fn is_white(c: char) -> bool {
    ||| '\u{9}' <= c <= '\u{d}'
    ||| c == ' '
    ||| c == '\u{85}'
    ||| c == '\u{a0}'
    ||| c == '\u{1680}'
    ||| '\u{2000}' <= c <= '\u{200a}'
    ||| c == '\u{2028}'
    ||| c == '\u{2029}'
    ||| c == '\u{202f}'
    ||| c == '\u{205f}'
    ||| c == '\u{3000}'
}

/// Whether `c` is white space.
pub fn white(c: char) -> (r: bool)
    ensures
        r == is_white(c),
{
    ('\u{9}' <= c && c <= '\u{d}') || c == ' ' || c == '\u{85}' || c == '\u{a0}' || c == '\u{1680}'
        || ('\u{2000}' <= c && c <= '\u{200a}') || c == '\u{2028}' || c == '\u{2029}' || c
        == '\u{202f}' || c == '\u{205f}' || c == '\u{3000}'
}

/// An ASCII decimal digit.
pub open spec fn is_digit(c: char) -> bool {
    '0' <= c <= '9'
}

/// An ASCII letter or digit.
pub open spec fn is_alnum(c: char) -> bool {
    is_digit(c) || 'a' <= c <= 'z' || 'A' <= c <= 'Z'
}

/// Whether `c` is an ASCII decimal digit.
pub fn digit(c: char) -> (r: bool)
    ensures
        r == is_digit(c),
{
    '0' <= c && c <= '9'
}

/// Whether `c` is an ASCII letter or digit.
pub fn alnum(c: char) -> (r: bool)
    ensures
        r == is_alnum(c),
{
    digit(c) || ('a' <= c && c <= 'z') || ('A' <= c && c <= 'Z')
}

/// `c` with an ASCII capital letter made small.
pub open spec fn lower(c: char) -> char {
    if 'A' <= c <= 'Z' {
        ((c as u32) + 32) as char
    } else {
        c
    }
}

/// Makes an ASCII capital letter small.
pub fn to_lower(c: char) -> (r: char)
    ensures
        r == lower(c),
{
    if 'A' <= c && c <= 'Z' {
        ((c as u8) + 32) as char
    } else {
        c
    }
}

/// `s` with every ASCII capital letter made small.
pub open spec fn lowered(s: Seq<char>) -> Seq<char> {
    Seq::new(s.len(), |i: int| lower(s[i]))
}

/// `s` with every ASCII capital letter made small.
pub fn ascii_lowered(s: &str) -> (r: String)
    ensures
        r@ == lowered(s@),
{
    let v = chars_of(s);
    let mut out = String::new();
    let mut i: usize = 0;
    while i < v.len()
        invariant
            i <= v@.len(),
            v@ == s@,
            out@ == lowered(s@).take(i as int),
        decreases v@.len() - i,
    {
        out.push(to_lower(v[i]));
        i += 1;
        assert(lowered(s@).take(i as int) =~= lowered(s@).take(i - 1).push(lower(v@[i - 1])));
    }
    assert(lowered(s@).take(v@.len() as int) =~= lowered(s@));
    out
}

// ── Trimming ────────────────────────────────────────────────────────────────

/// The class of white space characters.
pub open spec fn whites() -> spec_fn(char) -> bool {
    |c: char| is_white(c)
}

/// The class that holds one character.
pub open spec fn only(x: char) -> spec_fn(char) -> bool {
    |c: char| c == x
}

/// `s` without the longest prefix of characters in `drop`.
pub open spec fn trim_start_by(s: Seq<char>, drop: spec_fn(char) -> bool) -> Seq<char>
    decreases s.len(),
{
    if s.len() > 0 && drop(s[0]) {
        trim_start_by(s.skip(1), drop)
    } else {
        s
    }
}

/// `s` without the longest suffix of characters in `drop`.
pub open spec fn trim_end_by(s: Seq<char>, drop: spec_fn(char) -> bool) -> Seq<char>
    decreases s.len(),
{
    if s.len() > 0 && drop(s.last()) {
        trim_end_by(s.drop_last(), drop)
    } else {
        s
    }
}

/// `s` without leading and trailing characters in `drop`.
pub open spec fn trim_by(s: Seq<char>, drop: spec_fn(char) -> bool) -> Seq<char> {
    trim_end_by(trim_start_by(s, drop), drop)
}

/// `s` without leading and trailing white space.
pub open spec fn trimmed(s: Seq<char>) -> Seq<char> {
    trim_by(s, whites())
}

pub(crate) proof fn lemma_trim_start(s: Seq<char>, drop: spec_fn(char) -> bool, k: int)
    requires
        0 <= k <= s.len(),
        forall|i: int| 0 <= i < k ==> drop(#[trigger] s[i]),
        k == s.len() || !drop(s[k]),
    ensures
        trim_start_by(s, drop) == s.skip(k),
    decreases k,
{
    if k == 0 {
        assert(s.skip(0) =~= s);
    } else {
        assert(drop(s[0]));
        let t = s.skip(1);
        assert forall|i: int| 0 <= i < k - 1 implies drop(#[trigger] t[i]) by {
            assert(t[i] == s[i + 1]);
        }
        lemma_trim_start(t, drop, k - 1);
        assert(t.skip(k - 1) =~= s.skip(k));
    }
}

pub(crate) proof fn lemma_trim_end(s: Seq<char>, drop: spec_fn(char) -> bool, k: int)
    requires
        0 <= k <= s.len(),
        forall|i: int| k <= i < s.len() ==> drop(#[trigger] s[i]),
        k == 0 || !drop(s[k - 1]),
    ensures
        trim_end_by(s, drop) == s.take(k),
    decreases s.len() - k,
{
    if k == s.len() {
        assert(s.take(k) =~= s);
    } else {
        assert(drop(s[s.len() - 1]));
        let t = s.drop_last();
        lemma_trim_end(t, drop, k);
        assert(t.take(k) =~= s.take(k));
    }
}

/// `s` without leading white space.
pub fn trim_start<'a>(s: &'a str) -> (r: &'a str)
    ensures
        r@ == trim_start_by(s@, whites()),
{
    let v = chars_of(s);
    let mut k: usize = 0;
    while k < v.len() && white(v[k])
        invariant
            k <= v@.len(),
            v@ == s@,
            forall|i: int| 0 <= i < k ==> whites()(#[trigger] v@[i]),
        decreases v@.len() - k,
    {
        k += 1;
    }
    proof {
        lemma_trim_start(s@, whites(), k as int);
        assert(s@.skip(k as int) =~= s@.subrange(k as int, s@.len() as int));
    }
    s.substring_char(k, v.len())
}

/// `s` without trailing white space.
pub fn trim_end<'a>(s: &'a str) -> (r: &'a str)
    ensures
        r@ == trim_end_by(s@, whites()),
{
    let v = chars_of(s);
    let mut k: usize = v.len();
    while k > 0 && white(v[k - 1])
        invariant
            k <= v@.len(),
            v@ == s@,
            forall|i: int| k <= i < v@.len() ==> whites()(#[trigger] v@[i]),
        decreases k,
    {
        k -= 1;
    }
    proof {
        lemma_trim_end(s@, whites(), k as int);
        assert(s@.take(k as int) =~= s@.subrange(0, k as int));
    }
    s.substring_char(0, k)
}

/// `s` without leading and trailing white space.
pub fn trim<'a>(s: &'a str) -> (r: &'a str)
    ensures
        r@ == trimmed(s@),
{
    trim_end(trim_start(s))
}

/// `s` without leading copies of `x`.
pub fn trim_start_char<'a>(s: &'a str, x: char) -> (r: &'a str)
    ensures
        r@ == trim_start_by(s@, only(x)),
{
    let v = chars_of(s);
    let mut k: usize = 0;
    while k < v.len() && v[k] == x
        invariant
            k <= v@.len(),
            v@ == s@,
            forall|i: int| 0 <= i < k ==> only(x)(#[trigger] v@[i]),
        decreases v@.len() - k,
    {
        k += 1;
    }
    proof {
        lemma_trim_start(s@, only(x), k as int);
        assert(s@.skip(k as int) =~= s@.subrange(k as int, s@.len() as int));
    }
    s.substring_char(k, v.len())
}

/// `s` without trailing copies of `x`.
pub fn trim_end_char<'a>(s: &'a str, x: char) -> (r: &'a str)
    ensures
        r@ == trim_end_by(s@, only(x)),
{
    let v = chars_of(s);
    let mut k: usize = v.len();
    while k > 0 && v[k - 1] == x
        invariant
            k <= v@.len(),
            v@ == s@,
            forall|i: int| k <= i < v@.len() ==> only(x)(#[trigger] v@[i]),
        decreases k,
    {
        k -= 1;
    }
    proof {
        lemma_trim_end(s@, only(x), k as int);
        assert(s@.take(k as int) =~= s@.subrange(0, k as int));
    }
    s.substring_char(0, k)
}

/// `s` without leading and trailing copies of `x`.
pub fn trim_char<'a>(s: &'a str, x: char) -> (r: &'a str)
    ensures
        r@ == trim_by(s@, only(x)),
{
    trim_end_char(trim_start_char(s, x), x)
}

/// The class that holds two characters.
pub open spec fn either(x: char, y: char) -> spec_fn(char) -> bool {
    |c: char| c == x || c == y
}

/// `s` without leading and trailing copies of `x` and `y`.
pub fn trim_either<'a>(s: &'a str, x: char, y: char) -> (r: &'a str)
    ensures
        r@ == trim_by(s@, either(x, y)),
{
    let v = chars_of(s);
    let n: usize = v.len();
    let mut a: usize = 0;
    while a < n && (v[a] == x || v[a] == y)
        invariant
            a <= n,
            n == v@.len(),
            v@ == s@,
            forall|i: int| 0 <= i < a ==> either(x, y)(#[trigger] v@[i]),
        decreases n - a,
    {
        a += 1;
    }
    let ghost t = s@.skip(a as int);
    proof {
        lemma_trim_start(s@, either(x, y), a as int);
    }
    let mut b: usize = n;
    while b > a && (v[b - 1] == x || v[b - 1] == y)
        invariant
            a <= b <= n,
            n == v@.len(),
            v@ == s@,
            t == s@.skip(a as int),
            forall|i: int| b - a <= i < t.len() ==> either(x, y)(#[trigger] t[i]),
        decreases b,
    {
        b -= 1;
        assert(t[b - a] == v@[b as int]);
    }
    proof {
        if b > a {
            assert(t[b - a - 1] == v@[b - 1]);
        }
        lemma_trim_end(t, either(x, y), b - a);
        assert(t.take(b - a) =~= s@.subrange(a as int, b as int));
    }
    s.substring_char(a, b)
}

// ── Searching ───────────────────────────────────────────────────────────────

/// Whether `pat` stands in `s` at position `i`.
pub open spec fn at(s: Seq<char>, i: int, pat: Seq<char>) -> bool {
    0 <= i && i + pat.len() <= s.len() && s.subrange(i, i + pat.len()) == pat
}

/// The first position from `i` on at which `pat` stands in `s`.
pub open spec fn find_from(s: Seq<char>, pat: Seq<char>, i: int) -> Option<int>
    decreases s.len() + 1 - i,
{
    if i + pat.len() > s.len() {
        None
    } else if at(s, i, pat) {
        Some(i)
    } else {
        find_from(s, pat, i + 1)
    }
}

/// The first position at which `pat` stands in `s`.
pub open spec fn find(s: Seq<char>, pat: Seq<char>) -> Option<int> {
    find_from(s, pat, 0)
}

/// Whether `pat` stands anywhere in `s`.
pub open spec fn contains(s: Seq<char>, pat: Seq<char>) -> bool {
    exists|i: int| at(s, i, pat)
}

/// Whether `s` begins with `pat`.
pub open spec fn begins(s: Seq<char>, pat: Seq<char>) -> bool {
    pat.len() <= s.len() && s.take(pat.len() as int) == pat
}

/// Whether `s` ends with `pat`.
pub open spec fn ends(s: Seq<char>, pat: Seq<char>) -> bool {
    pat.len() <= s.len() && s.skip(s.len() - pat.len()) == pat
}

/// What follows `pat` at the beginning of `s`, when `s` begins with it.
pub open spec fn after_prefix(s: Seq<char>, pat: Seq<char>) -> Option<Seq<char>> {
    if begins(s, pat) {
        Some(s.skip(pat.len() as int))
    } else {
        None
    }
}

/// What precedes `pat` at the end of `s`, when `s` ends with it.
pub open spec fn before_suffix(s: Seq<char>, pat: Seq<char>) -> Option<Seq<char>> {
    if ends(s, pat) {
        Some(s.take(s.len() - pat.len()))
    } else {
        None
    }
}

/// `find` gives the least position at which the pattern stands, and none exactly when
/// the pattern stands nowhere.
pub proof fn find_is_least(s: Seq<char>, pat: Seq<char>)
    ensures
        find(s, pat) is Some <==> contains(s, pat),
        find(s, pat) matches Some(k) ==> at(s, k, pat) && forall|i: int|
            0 <= i < k ==> !at(s, i, pat),
{
    lemma_find_from(s, pat, 0);
    if contains(s, pat) {
        let i = choose|i: int| at(s, i, pat);
        assert(0 <= i);
    }
}

pub(crate) proof fn lemma_find_from(s: Seq<char>, pat: Seq<char>, i: int)
    requires
        0 <= i,
    ensures
        find_from(s, pat, i) matches Some(k) ==> i <= k && at(s, k, pat) && forall|j: int|
            i <= j < k ==> !at(s, j, pat),
        find_from(s, pat, i) is None ==> forall|j: int| i <= j ==> !at(s, j, pat),
    decreases s.len() + 1 - i,
{
    if i + pat.len() > s.len() {
    } else if at(s, i, pat) {
    } else {
        lemma_find_from(s, pat, i + 1);
    }
}

pub(crate) proof fn lemma_find_at(s: Seq<char>, pat: Seq<char>, k: int)
    requires
        at(s, k, pat),
        forall|j: int| 0 <= j < k ==> !at(s, j, pat),
    ensures
        find(s, pat) == Some(k),
{
    find_is_least(s, pat);
}

/// Whether `pat` stands in `s` at position `i`.
pub(crate) fn stands_at(s: &Vec<char>, i: usize, pat: &Vec<char>) -> (r: bool)
    ensures
        r == at(s@, i as int, pat@),
{
    if s.len() < pat.len() || i > s.len() - pat.len() {
        return false;
    }
    let mut j: usize = 0;
    while j < pat.len()
        invariant
            j <= pat@.len(),
            i + pat@.len() <= s@.len() <= usize::MAX,
            forall|k: int| 0 <= k < j ==> s@[i + k] == pat@[k],
        decreases pat@.len() - j,
    {
        if s[i + j] != pat[j] {
            assert(s@.subrange(i as int, i + pat@.len())[j as int] != pat@[j as int]);
            return false;
        }
        j += 1;
    }
    assert(s@.subrange(i as int, i + pat@.len()) =~= pat@);
    true
}

/// The first position from `i` on at which `pat` stands in `s`.
pub(crate) fn position_from(s: &Vec<char>, pat: &Vec<char>, i: usize) -> (r: Option<usize>)
    requires
        i <= s@.len(),
    ensures
        r matches Some(k) ==> find_from(s@, pat@, i as int) == Some(k as int) && k <= s@.len(),
        r is None ==> find_from(s@, pat@, i as int) is None,
{
    let mut k: usize = i;
    loop
        invariant
            i <= k <= s@.len(),
            find_from(s@, pat@, i as int) == find_from(s@, pat@, k as int),
        decreases s@.len() - k,
    {
        if s.len() < pat.len() || k > s.len() - pat.len() {
            return None;
        }
        if stands_at(s, k, pat) {
            return Some(k);
        }
        if k == s.len() {
            assert(s@.subrange(k as int, k + pat@.len()) =~= pat@);
            return None;
        }
        k += 1;
    }
}

/// The first position, counted in characters, at which `pat` stands in `s`.
pub fn position(s: &str, pat: &str) -> (r: Option<usize>)
    ensures
        r matches Some(k) ==> find(s@, pat@) == Some(k as int) && k + pat@.len() <= s@.len()
            <= usize::MAX,
        r is None ==> find(s@, pat@) is None,
{
    let v = chars_of(s);
    let p = chars_of(pat);
    let n: usize = v.len();
    proof {
        find_is_least(s@, pat@);
        assert(n == s@.len());
    }
    position_from(&v, &p, 0)
}

/// Whether `pat` stands anywhere in `s`.
pub fn occurs(s: &str, pat: &str) -> (r: bool)
    ensures
        r == contains(s@, pat@),
{
    proof {
        find_is_least(s@, pat@);
    }
    position(s, pat).is_some()
}

/// Whether `s` begins with `pat`.
pub fn starts_with(s: &str, pat: &str) -> (r: bool)
    ensures
        r == begins(s@, pat@),
{
    let v = chars_of(s);
    let p = chars_of(pat);
    proof {
        if pat@.len() <= s@.len() {
            assert(s@.subrange(0, pat@.len() as int) =~= s@.take(pat@.len() as int));
        }
    }
    stands_at(&v, 0, &p)
}

/// Whether `s` ends with `pat`.
pub fn ends_with(s: &str, pat: &str) -> (r: bool)
    ensures
        r == ends(s@, pat@),
{
    let v = chars_of(s);
    let p = chars_of(pat);
    if v.len() < p.len() {
        return false;
    }
    proof {
        assert(s@.subrange(s@.len() - pat@.len(), s@.len() as int) =~= s@.skip(
            s@.len() - pat@.len(),
        ));
    }
    stands_at(&v, v.len() - p.len(), &p)
}

/// What follows `pat` at the beginning of `s`, when `s` begins with it.
pub fn strip_prefix<'a>(s: &'a str, pat: &str) -> (r: Option<&'a str>)
    ensures
        opt_str(r) == after_prefix(s@, pat@),
{
    if starts_with(s, pat) {
        let n: usize = s.unicode_len();
        let k: usize = pat.unicode_len();
        assert(s@.skip(k as int) =~= s@.subrange(k as int, n as int));
        Some(s.substring_char(k, n))
    } else {
        None
    }
}

/// What precedes `pat` at the end of `s`, when `s` ends with it.
pub fn strip_suffix<'a>(s: &'a str, pat: &str) -> (r: Option<&'a str>)
    ensures
        opt_str(r) == before_suffix(s@, pat@),
{
    if ends_with(s, pat) {
        let n: usize = s.unicode_len();
        let k: usize = pat.unicode_len();
        assert(s@.take(n - k) =~= s@.subrange(0, n - k));
        Some(s.substring_char(0, n - k))
    } else {
        None
    }
}

/// `s` without any copies of `pat` at its beginning.
pub open spec fn without_prefixes(s: Seq<char>, pat: Seq<char>) -> Seq<char>
    decreases s.len(),
{
    if pat.len() > 0 && begins(s, pat) {
        without_prefixes(s.skip(pat.len() as int), pat)
    } else {
        s
    }
}

/// `s` without any copies of `pat` at its end.
pub open spec fn without_suffixes(s: Seq<char>, pat: Seq<char>) -> Seq<char>
    decreases s.len(),
{
    if pat.len() > 0 && ends(s, pat) {
        without_suffixes(s.take(s.len() - pat.len()), pat)
    } else {
        s
    }
}

/// `s` without any copies of `pat` at its beginning.
pub fn trim_start_text<'a>(s: &'a str, pat: &str) -> (r: &'a str)
    requires
        pat@.len() > 0,
    ensures
        r@ == without_prefixes(s@, pat@),
{
    let mut t = s;
    loop
        invariant
            pat@.len() > 0,
            without_prefixes(s@, pat@) == without_prefixes(t@, pat@),
        decreases t@.len(),
    {
        match strip_prefix(t, pat) {
            Some(rest) => {
                t = rest;
            },
            None => {
                return t;
            },
        }
    }
}

/// `s` without any copies of `pat` at its end.
pub fn trim_end_text<'a>(s: &'a str, pat: &str) -> (r: &'a str)
    requires
        pat@.len() > 0,
    ensures
        r@ == without_suffixes(s@, pat@),
{
    let mut t = s;
    loop
        invariant
            pat@.len() > 0,
            without_suffixes(s@, pat@) == without_suffixes(t@, pat@),
        decreases t@.len(),
    {
        match strip_suffix(t, pat) {
            Some(rest) => {
                t = rest;
            },
            None => {
                return t;
            },
        }
    }
}

/// The first `k` characters of `s`.
pub fn head<'a>(s: &'a str, k: usize) -> (r: &'a str)
    requires
        k <= s@.len(),
    ensures
        r@ == s@.take(k as int),
{
    proof {
        assert(s@.take(k as int) =~= s@.subrange(0, k as int));
    }
    s.substring_char(0, k)
}

/// `s` without its first `k` characters.
pub fn tail<'a>(s: &'a str, k: usize) -> (r: &'a str)
    requires
        k <= s@.len(),
    ensures
        r@ == s@.skip(k as int),
{
    let n: usize = s.unicode_len();
    proof {
        assert(s@.skip(k as int) =~= s@.subrange(k as int, n as int));
    }
    s.substring_char(k, n)
}

// ── Replacing, splitting, joining ───────────────────────────────────────────

/// `s` with every occurrence of `from` put as `to`, found from the left and not
/// overlapping.
pub open spec fn replaced(s: Seq<char>, from: Seq<char>, to: Seq<char>) -> Seq<char>
    recommends
        from.len() > 0,
    decreases s.len(),
    when from.len() > 0
    via replaced_shrinks
{
    match find(s, from) {
        None => s,
        Some(i) => s.take(i) + to + replaced(s.skip(i + from.len()), from, to),
    }
}

#[via_fn]
proof fn replaced_shrinks(s: Seq<char>, from: Seq<char>, to: Seq<char>) {
    find_is_least(s, from);
}

/// The pieces of `s` between the occurrences of `c`.
pub open spec fn split(s: Seq<char>, c: char) -> Seq<Seq<char>>
    decreases s.len(),
    via split_shrinks
{
    match find(s, seq![c]) {
        None => seq![s],
        Some(i) => seq![s.take(i)] + split(s.skip(i + 1), c),
    }
}

#[via_fn]
proof fn split_shrinks(s: Seq<char>, c: char) {
    find_is_least(s, seq![c]);
}

/// A line without the carriage return at its end.
pub open spec fn chomp(s: Seq<char>) -> Seq<char> {
    if s.len() > 0 && s.last() == '\r' {
        s.drop_last()
    } else {
        s
    }
}

/// The lines of `s`: a line ends with a line feed or with a carriage return and a line
/// feed; the last line may lack its end.
pub open spec fn lines_of(s: Seq<char>) -> Seq<Seq<char>>
    decreases s.len(),
    via lines_shrink
{
    match find(s, seq!['\n']) {
        None => if s.len() == 0 {
            Seq::empty()
        } else {
            seq![s]
        },
        Some(i) => seq![chomp(s.take(i))] + lines_of(s.skip(i + 1)),
    }
}

#[via_fn]
proof fn lines_shrink(s: Seq<char>) {
    find_is_least(s, seq!['\n']);
}

/// The length of the longest prefix of `s` without white space.
pub open spec fn word_len(s: Seq<char>) -> nat
    decreases s.len(),
{
    if s.len() == 0 || is_white(s[0]) {
        0
    } else {
        1 + word_len(s.skip(1))
    }
}

/// The words of `s`, which white space separates.
pub open spec fn words_of(s: Seq<char>) -> Seq<Seq<char>>
    decreases s.len(),
    via words_shrink
{
    let t = trim_start_by(s, whites());
    if t.len() == 0 {
        Seq::empty()
    } else {
        seq![t.take(word_len(t) as int)] + words_of(t.skip(word_len(t) as int))
    }
}

#[via_fn]
proof fn words_shrink(s: Seq<char>) {
    let t = trim_start_by(s, whites());
    lemma_trim_start_fact(s, whites());
    if t.len() > 0 {
        lemma_word_len(t);
    }
}

pub(crate) proof fn lemma_trim_start_fact(s: Seq<char>, drop: spec_fn(char) -> bool)
    ensures
        trim_start_by(s, drop).len() <= s.len(),
        trim_start_by(s, drop).len() > 0 ==> !drop(trim_start_by(s, drop)[0]),
        trim_start_by(s, drop) == s.skip(s.len() - trim_start_by(s, drop).len()),
    decreases s.len(),
{
    if s.len() > 0 && drop(s[0]) {
        lemma_trim_start_fact(s.skip(1), drop);
        let t = trim_start_by(s, drop);
        assert(s.skip(1).skip(s.skip(1).len() - t.len()) =~= s.skip(s.len() - t.len()));
    } else {
        assert(s.skip(0) =~= s);
    }
}

pub(crate) proof fn lemma_trim_end_fact(s: Seq<char>, drop: spec_fn(char) -> bool)
    ensures
        trim_end_by(s, drop).len() <= s.len(),
        trim_end_by(s, drop).len() > 0 ==> !drop(trim_end_by(s, drop).last()),
        trim_end_by(s, drop) == s.take(trim_end_by(s, drop).len() as int),
    decreases s.len(),
{
    if s.len() > 0 && drop(s.last()) {
        lemma_trim_end_fact(s.drop_last(), drop);
        let t = trim_end_by(s, drop);
        assert(s.drop_last().take(t.len() as int) =~= s.take(t.len() as int));
    } else {
        assert(s.take(s.len() as int) =~= s);
    }
}

pub(crate) proof fn lemma_word_len(s: Seq<char>)
    ensures
        word_len(s) <= s.len(),
        s.len() > 0 && !is_white(s[0]) ==> word_len(s) > 0,
        word_len(s) < s.len() ==> is_white(s[word_len(s) as int]),
        forall|i: int| 0 <= i < word_len(s) ==> !is_white(#[trigger] s[i]),
    decreases s.len(),
{
    if s.len() == 0 || is_white(s[0]) {
    } else {
        lemma_word_len(s.skip(1));
        assert forall|i: int| 0 <= i < word_len(s) implies !is_white(#[trigger] s[i]) by {
            if i > 0 {
                assert(s[i] == s.skip(1)[i - 1]);
            }
        }
    }
}

pub(crate) proof fn lemma_word_len_is(s: Seq<char>, k: int)
    requires
        0 <= k <= s.len(),
        forall|i: int| 0 <= i < k ==> !is_white(#[trigger] s[i]),
        k == s.len() || is_white(s[k]),
    ensures
        word_len(s) == k,
    decreases k,
{
    if k > 0 {
        assert(!is_white(s[0]));
        assert forall|i: int| 0 <= i < k - 1 implies !is_white(#[trigger] s.skip(1)[i]) by {
            assert(s.skip(1)[i] == s[i + 1]);
        }
        lemma_word_len_is(s.skip(1), k - 1);
    }
}

/// The last `n` items.
pub open spec fn last_n(s: Seq<Seq<char>>, n: nat) -> Seq<Seq<char>> {
    if s.len() <= n {
        s
    } else {
        s.skip(s.len() - n)
    }
}

/// `parts` with `sep` between each two of them.
pub open spec fn joined(parts: Seq<Seq<char>>, sep: Seq<char>) -> Seq<char>
    decreases parts.len(),
{
    if parts.len() == 0 {
        Seq::empty()
    } else if parts.len() == 1 {
        parts[0]
    } else {
        joined(parts.drop_last(), sep) + sep + parts.last()
    }
}

pub(crate) proof fn lemma_joined_first(parts: Seq<Seq<char>>, sep: Seq<char>)
    requires
        parts.len() >= 2,
    ensures
        joined(parts, sep) == parts[0] + sep + joined(parts.skip(1), sep),
    decreases parts.len(),
{
    let front = parts.drop_last();
    let rest = parts.skip(1);
    if parts.len() == 2 {
        assert(joined(front, sep) == parts[0]);
        assert(joined(rest, sep) == parts[1]);
        assert(joined(parts, sep) =~= parts[0] + sep + joined(rest, sep));
    } else {
        lemma_joined_first(front, sep);
        assert(front.skip(1) =~= rest.drop_last());
        assert(rest.last() == parts.last());
        assert(joined(parts, sep) =~= parts[0] + sep + joined(rest, sep));
    }
}

/// `s` with every occurrence of `from` put as `to`, found from the left and not
/// overlapping.
pub fn replace(s: &str, from: &str, to: &str) -> (r: String)
    requires
        from@.len() > 0,
    ensures
        r@ == replaced(s@, from@, to@),
{
    let v = chars_of(s);
    let p = chars_of(from);
    let n: usize = v.len();
    let mut out = String::new();
    let mut k: usize = 0;
    proof {
        assert(s@.skip(0) =~= s@);
    }
    loop
        invariant
            k <= n,
            n == v@.len(),
            v@ == s@,
            p@ == from@,
            from@.len() > 0,
            replaced(s@, from@, to@) == out@ + replaced(s@.skip(k as int), from@, to@),
        decreases v@.len() - k,
    {
        let ghost rest = s@.skip(k as int);
        match position_from(&v, &p, k) {
            None => {
                proof {
                    lemma_find_skip(s@, from@, k as int);
                }
                let rest_text = piece(&v, k, n);
                proof {
                    assert(s@.subrange(k as int, n as int) =~= rest);
                }
                out.append(rest_text.as_str());
                return out;
            },
            Some(i) => {
                proof {
                    lemma_find_skip(s@, from@, k as int);
                    lemma_find_from(s@, from@, k as int);
                    assert(s@.subrange(k as int, i as int) =~= rest.take(i - k));
                    assert(rest.skip(i - k + from@.len()) =~= s@.skip(i + from@.len()));
                }
                let ghost before = out@;
                let ghost next = replaced(s@.skip(i + from@.len()), from@, to@);
                out.append(piece(&v, k, i).as_str());
                out.append(to);
                assert(before + (rest.take(i - k) + to@ + next) =~= out@ + next);
                k = i + p.len();
            },
        }
    }
}

pub(crate) proof fn lemma_find_skip(s: Seq<char>, pat: Seq<char>, k: int)
    requires
        0 <= k <= s.len(),
    ensures
        find_from(s, pat, k) is None <==> find(s.skip(k), pat) is None,
        find_from(s, pat, k) matches Some(i) ==> find(s.skip(k), pat) == Some(i - k),
{
    let t = s.skip(k);
    lemma_find_from(s, pat, k);
    find_is_least(t, pat);
    assert forall|i: int| 0 <= i implies at(t, i, pat) == at(s, i + k, pat) by {
        if i + k + pat.len() <= s.len() {
            assert(t.subrange(i, i + pat.len()) =~= s.subrange(i + k, i + k + pat.len()));
        }
    }
    match find_from(s, pat, k) {
        Some(i) => {
            assert(at(t, i - k, pat));
            assert forall|j: int| 0 <= j < i - k implies !at(t, j, pat) by {
                assert(!at(s, j + k, pat));
            }
            lemma_find_at(t, pat, i - k);
        },
        None => {
            match find(t, pat) {
                Some(j) => {
                    assert(at(s, j + k, pat));
                },
                None => {},
            }
        },
    }
}

/// Replacing one character by another changes every occurrence of the first and nothing
/// else.
pub proof fn replacing_a_char_maps_it(s: Seq<char>, c: char, d: char)
    ensures
        replaced(s, seq![c], seq![d]).len() == s.len(),
        forall|i: int|
            0 <= i < s.len() ==> #[trigger] replaced(s, seq![c], seq![d])[i] == (if s[i] == c {
                d
            } else {
                s[i]
            }),
    decreases s.len(),
{
    find_is_least(s, seq![c]);
    let r = replaced(s, seq![c], seq![d]);
    match find(s, seq![c]) {
        None => {
            assert forall|i: int| 0 <= i < s.len() implies s[i] != c by {
                if s[i] == c {
                    assert(s.subrange(i, i + 1) =~= seq![c]);
                    assert(at(s, i, seq![c]));
                }
            }
        },
        Some(k) => {
            let rest = s.skip(k + 1);
            replacing_a_char_maps_it(rest, c, d);
            assert(s.subrange(k, k + 1)[0] == c);
            assert forall|i: int| 0 <= i < s.len() implies #[trigger] r[i] == (if s[i] == c {
                d
            } else {
                s[i]
            }) by {
                if i < k {
                    if s[i] == c {
                        assert(s.subrange(i, i + 1) =~= seq![c]);
                        assert(at(s, i, seq![c]));
                    }
                } else if i > k {
                    assert(r[i] == replaced(rest, seq![c], seq![d])[i - k - 1]);
                    assert(rest[i - k - 1] == s[i]);
                }
            }
        },
    }
}

/// Replacing a character works character by character.
pub proof fn replacing_a_char_by_char(s: Seq<char>, c: char, to: Seq<char>)
    requires
        s.len() > 0,
    ensures
        replaced(s, seq![c], to) == (if s[0] == c {
            to
        } else {
            seq![s[0]]
        }) + replaced(s.skip(1), seq![c], to),
{
    let p = seq![c];
    let t = s.skip(1);
    assert(s.skip(0) =~= s);
    lemma_find_skip(s, p, 1);
    find_is_least(s, p);
    if s[0] == c {
        assert(s.subrange(0, 1) =~= p);
        lemma_find_at(s, p, 0);
        assert(s.take(0) + to + replaced(t, p, to) =~= to + replaced(t, p, to));
    } else {
        assert(!at(s, 0, p)) by {
            assert(s.subrange(0, 1)[0] == s[0]);
        }
        match find(t, p) {
            None => {
                assert(seq![s[0]] + t =~= s);
            },
            Some(k) => {
                find_is_least(t, p);
                assert(s.take(k + 1) =~= seq![s[0]] + t.take(k));
                assert(s.skip(k + 2) =~= t.skip(k + 1));
                let rest = replaced(t.skip(k + 1), p, to);
                assert(seq![s[0]] + t.take(k) + to + rest =~= seq![s[0]] + (t.take(k) + to + rest));
            },
        }
    }
}

/// No character of `a` is a character of `b`.
pub open spec fn disjoint(a: Seq<char>, b: Seq<char>) -> bool {
    forall|i: int, j: int|
        0 <= i < a.len() && 0 <= j < b.len() ==> #[trigger] a[i] != #[trigger] b[j]
}

/// Replacing brings no occurrence of a text with which the replacement shares no
/// character; and no occurrence of what was replaced is left.
pub proof fn replacing_brings_nothing_foreign(
    s: Seq<char>,
    from: Seq<char>,
    to: Seq<char>,
    pat: Seq<char>,
)
    requires
        from.len() > 0,
        to.len() > 0,
        pat.len() > 0,
        disjoint(pat, to),
    ensures
        contains(replaced(s, from, to), pat) ==> contains(s, pat),
        pat == from ==> !contains(replaced(s, from, to), pat),
    decreases s.len(),
{
    find_is_least(s, from);
    let r = replaced(s, from, to);
    match find(s, from) {
        None => {},
        Some(i) => {
            let rest = s.skip(i + from.len());
            let q = replaced(rest, from, to);
            replacing_brings_nothing_foreign(rest, from, to, pat);
            if contains(r, pat) {
                let j = choose|j: int| at(r, j, pat);
                let n = pat.len() as int;
                let m = to.len() as int;
                if j + n <= i {
                    assert(r.subrange(j, j + n) =~= s.subrange(j, j + n));
                    assert(at(s, j, pat));
                    if pat == from {
                        assert(j < i);
                    }
                } else if j >= i + m {
                    let k = j - i - m;
                    assert(r.subrange(j, j + n) =~= q.subrange(k, k + n));
                    assert(at(q, k, pat));
                    let h = choose|h: int| at(rest, h, pat);
                    assert(rest.subrange(h, h + n) =~= s.subrange(
                        h + i + from.len(),
                        h + i + from.len() + n,
                    ));
                    assert(at(s, h + i + from.len(), pat));
                } else {
                    let x = if j >= i {
                        j
                    } else {
                        i
                    };
                    assert(r.subrange(j, j + n)[x - j] == pat[x - j]);
                    assert(r[x] == to[x - i]);
                    assert(pat[x - j] != to[x - i]);
                }
            }
        },
    }
}

/// Replacing what does not occur changes nothing.
pub proof fn replacing_what_is_absent(s: Seq<char>, from: Seq<char>, to: Seq<char>)
    requires
        from.len() > 0,
        !contains(s, from),
    ensures
        replaced(s, from, to) == s,
{
    find_is_least(s, from);
}

/// The pieces of `s` between the occurrences of `c`.
pub fn split_on(s: &str, c: char) -> (r: Vec<String>)
    ensures
        texts(r@) == split(s@, c),
{
    let v = chars_of(s);
    let n: usize = v.len();
    let mut p: Vec<char> = Vec::new();
    p.push(c);
    let mut out: Vec<String> = Vec::new();
    let mut k: usize = 0;
    proof {
        assert(p@ =~= seq![c]);
        assert(s@.skip(0) =~= s@);
        assert(texts(out@) + split(s@, c) =~= split(s@, c));
    }
    loop
        invariant
            k <= n,
            n == v@.len(),
            v@ == s@,
            p@ == seq![c],
            split(s@, c) == texts(out@) + split(s@.skip(k as int), c),
        decreases v@.len() - k,
    {
        let ghost rest = s@.skip(k as int);
        let ghost before = out@;
        proof {
            lemma_find_skip(s@, seq![c], k as int);
            lemma_find_from(s@, seq![c], k as int);
        }
        match position_from(&v, &p, k) {
            None => {
                out.push(piece(&v, k, n));
                proof {
                    assert(s@.subrange(k as int, n as int) =~= rest);
                    assert(texts(out@) =~= texts(before) + seq![rest]);
                }
                return out;
            },
            Some(i) => {
                out.push(piece(&v, k, i));
                proof {
                    let next = split(s@.skip(i + 1), c);
                    assert(s@.subrange(k as int, i as int) =~= rest.take(i - k));
                    assert(rest.skip(i - k + 1) =~= s@.skip(i + 1));
                    assert(texts(out@) =~= texts(before) + seq![rest.take(i - k)]);
                    assert(texts(before) + (seq![rest.take(i - k)] + next) =~= texts(out@) + next);
                }
                k = i + 1;
            },
        }
    }
}

/// The lines of `s`: a line ends with a line feed or with a carriage return and a line
/// feed; the last line may lack its end.
pub fn lines(s: &str) -> (r: Vec<String>)
    ensures
        texts(r@) == lines_of(s@),
{
    let v = chars_of(s);
    let n: usize = v.len();
    let mut p: Vec<char> = Vec::new();
    p.push('\n');
    let mut out: Vec<String> = Vec::new();
    let mut k: usize = 0;
    proof {
        assert(p@ =~= seq!['\n']);
        assert(s@.skip(0) =~= s@);
        assert(texts(out@) + lines_of(s@) =~= lines_of(s@));
    }
    loop
        invariant
            k <= n,
            n == v@.len(),
            v@ == s@,
            p@ == seq!['\n'],
            lines_of(s@) == texts(out@) + lines_of(s@.skip(k as int)),
        decreases v@.len() - k,
    {
        let ghost rest = s@.skip(k as int);
        let ghost before = out@;
        proof {
            lemma_find_skip(s@, seq!['\n'], k as int);
            lemma_find_from(s@, seq!['\n'], k as int);
        }
        match position_from(&v, &p, k) {
            None => {
                if k < n {
                    out.push(piece(&v, k, n));
                    proof {
                        assert(s@.subrange(k as int, n as int) =~= rest);
                        assert(texts(out@) =~= texts(before) + seq![rest]);
                    }
                } else {
                    assert(texts(out@) =~= texts(before) + Seq::<Seq<char>>::empty());
                }
                return out;
            },
            Some(i) => {
                let mut e: usize = i;
                if i > k && v[i - 1] == '\r' {
                    e = i - 1;
                }
                out.push(piece(&v, k, e));
                proof {
                    let next = lines_of(s@.skip(i + 1));
                    let line = rest.take(i - k);
                    assert(s@.subrange(k as int, e as int) =~= chomp(line));
                    assert(rest.skip(i - k + 1) =~= s@.skip(i + 1));
                    assert(texts(out@) =~= texts(before) + seq![chomp(line)]);
                    assert(texts(before) + (seq![chomp(line)] + next) =~= texts(out@) + next);
                }
                k = i + 1;
            },
        }
    }
}

/// The words of `s`, which white space separates.
pub fn split_whitespace(s: &str) -> (r: Vec<String>)
    ensures
        texts(r@) == words_of(s@),
{
    let v = chars_of(s);
    let n: usize = v.len();
    let mut out: Vec<String> = Vec::new();
    let mut k: usize = 0;
    proof {
        assert(s@.skip(0) =~= s@);
        assert(texts(out@) + words_of(s@) =~= words_of(s@));
    }
    loop
        invariant
            k <= n,
            n == v@.len(),
            v@ == s@,
            words_of(s@) == texts(out@) + words_of(s@.skip(k as int)),
        decreases v@.len() - k,
    {
        let ghost rest = s@.skip(k as int);
        let ghost before = out@;
        let mut a: usize = k;
        while a < n && white(v[a])
            invariant
                k <= a <= n,
                n == v@.len(),
                v@ == s@,
                rest == s@.skip(k as int),
                forall|i: int| 0 <= i < a - k ==> whites()(#[trigger] rest[i]),
            decreases n - a,
        {
            assert(rest[a - k] == v@[a as int]);
            a += 1;
        }
        let ghost t = s@.skip(a as int);
        proof {
            if a < n {
                assert(rest[a - k] == v@[a as int]);
            }
            lemma_trim_start(rest, whites(), a - k);
            assert(rest.skip(a - k) =~= t);
        }
        if a == n {
            assert(texts(out@) =~= texts(before) + Seq::<Seq<char>>::empty());
            return out;
        }
        let mut b: usize = a;
        while b < n && !white(v[b])
            invariant
                a <= b <= n,
                n == v@.len(),
                v@ == s@,
                t == s@.skip(a as int),
                forall|i: int| 0 <= i < b - a ==> !is_white(#[trigger] t[i]),
            decreases n - b,
        {
            assert(t[b - a] == v@[b as int]);
            b += 1;
        }
        out.push(piece(&v, a, b));
        proof {
            if b < n {
                assert(t[b - a] == v@[b as int]);
            }
            lemma_word_len_is(t, b - a);
            let next = words_of(s@.skip(b as int));
            assert(s@.subrange(a as int, b as int) =~= t.take(b - a));
            assert(t.skip(b - a) =~= s@.skip(b as int));
            assert(texts(out@) =~= texts(before) + seq![t.take(b - a)]);
            assert(texts(before) + (seq![t.take(b - a)] + next) =~= texts(out@) + next);
            lemma_word_len(t);
        }
        k = b;
    }
}

/// `parts` with `sep` between each two of them.
pub fn join(parts: &[String], sep: &str) -> (r: String)
    ensures
        r@ == joined(texts(parts@), sep@),
{
    let mut out = String::new();
    let mut i: usize = 0;
    proof {
        assert(texts(parts@).take(0) =~= Seq::<Seq<char>>::empty());
    }
    while i < parts.len()
        invariant
            i <= parts@.len(),
            out@ == joined(texts(parts@).take(i as int), sep@),
        decreases parts@.len() - i,
    {
        let ghost prev = texts(parts@).take(i as int);
        let ghost next = texts(parts@).take(i + 1);
        proof {
            assert(next.drop_last() =~= prev);
            assert(next.last() == parts@[i as int]@);
        }
        if i > 0 {
            out.append(sep);
        }
        out.append(parts[i].as_str());
        proof {
            if i == 0 {
                assert(out@ =~= parts@[0]@);
            }
        }
        i += 1;
    }
    assert(texts(parts@).take(parts@.len() as int) =~= texts(parts@));
    out
}

// ── Numbers ─────────────────────────────────────────────────────────────────

/// The digit character of a number below ten.
pub open spec fn digit_char(d: nat) -> char {
    (('0' as int) + d) as char
}

/// `n` in decimal.
pub open spec fn decimal(n: nat) -> Seq<char>
    decreases n,
{
    if n < 10 {
        seq![digit_char(n)]
    } else {
        decimal(n / 10).push(digit_char(n % 10))
    }
}

/// The number that a string of decimal digits denotes.
pub open spec fn digits_value(s: Seq<char>) -> nat
    decreases s.len(),
{
    if s.len() == 0 {
        0
    } else {
        digits_value(s.drop_last()) * 10 + (s.last() as int - '0' as int) as nat
    }
}

/// Whether `s` is made of decimal digits only.
pub open spec fn all_digits(s: Seq<char>) -> bool {
    forall|i: int| 0 <= i < s.len() ==> is_digit(#[trigger] s[i])
}

/// The number that `s` denotes: at least one digit, with an optional plus sign before
/// them, and a value of at most `max`.
pub open spec fn parsed(s: Seq<char>, max: nat) -> Option<nat> {
    let body = if s.len() > 0 && s[0] == '+' {
        s.skip(1)
    } else {
        s
    };
    if body.len() > 0 && all_digits(body) && digits_value(body) <= max {
        Some(digits_value(body))
    } else {
        None
    }
}

/// A number in decimal is a string of digits that denotes the number: reading it back
/// gives the number, wherever it is within the limit.
pub proof fn decimal_reads_back(n: nat, max: nat)
    requires
        n <= max,
    ensures
        parsed(decimal(n), max) == Some(n),
{
    lemma_decimal(n);
}

pub(crate) proof fn lemma_decimal(n: nat)
    ensures
        decimal(n).len() > 0,
        all_digits(decimal(n)),
        digits_value(decimal(n)) == n,
        decimal(n)[0] != '+',
    decreases n,
{
    if n < 10 {
        let s = decimal(n);
        assert(s.drop_last() =~= Seq::<char>::empty());
        assert(digits_value(s.drop_last()) == 0);
        assert(s.last() == digit_char(n));
    } else {
        lemma_decimal(n / 10);
        let s = decimal(n);
        assert(s.drop_last() =~= decimal(n / 10));
        assert(s.last() == digit_char(n % 10));
        assert(is_digit(digit_char(n % 10)));
        assert(s[0] == decimal(n / 10)[0]);
    }
}

/// `n` in decimal.
pub fn decimal_wide(n: u128) -> (r: String)
    ensures
        r@ == decimal(n as nat),
    decreases n,
{
    let d: u8 = (n % 10) as u8;
    if n < 10 {
        let mut s = String::new();
        s.push((48 + d) as char);
        assert(s@ =~= decimal(n as nat));
        s
    } else {
        let mut s = decimal_wide(n / 10);
        s.push((48 + d) as char);
        s
    }
}

/// `n` in decimal.
pub fn decimal_text(n: u64) -> (r: String)
    ensures
        r@ == decimal(n as nat),
{
    decimal_wide(n as u128)
}

/// `n` in decimal, with a minus sign before a negative number.
pub open spec fn signed(n: int) -> Seq<char> {
    if n < 0 {
        "-"@ + decimal((-n) as nat)
    } else {
        decimal(n as nat)
    }
}

/// `n` in decimal, with a minus sign before a negative number.
pub fn signed_text(n: i32) -> (r: String)
    ensures
        r@ == signed(n as int),
{
    if n < 0 {
        let m: i64 = -(n as i64);
        cat("-", decimal_text(m as u64).as_str())
    } else {
        decimal_text(n as u64)
    }
}

/// The number that a non-empty string of digits denotes, if it is at most `max`.
fn digits_number(v: &Vec<char>, from: usize, max: u64) -> (r: Option<u64>)
    requires
        from <= v@.len(),
    ensures
        r matches Some(n) ==> all_digits(v@.skip(from as int)) && digits_value(
            v@.skip(from as int),
        ) == n && n <= max,
        r is None ==> !all_digits(v@.skip(from as int)) || digits_value(v@.skip(from as int))
            > max,
{
    let ghost body = v@.skip(from as int);
    let mut value: u64 = 0;
    let mut i: usize = from;
    while i < v.len()
        invariant
            from <= i <= v@.len(),
            body == v@.skip(from as int),
            value <= max,
            all_digits(body.take(i - from)),
            value == digits_value(body.take(i - from)),
        decreases v@.len() - i,
    {
        let c = v[i];
        assert(body[i - from] == c);
        if !digit(c) {
            return None;
        }
        let d: u64 = ((c as u8) - 48) as u64;
        proof {
            let t = body.take(i - from + 1);
            assert(t.drop_last() =~= body.take(i - from));
            assert(t.last() == c);
            assert(digits_value(t) == value * 10 + d);
            lemma_digits_grow(body, i - from + 1);
        }
        if value > (u64::MAX - d) / 10 {
            return None;
        }
        value = value * 10 + d;
        if value > max {
            return None;
        }
        i += 1;
        assert(all_digits(body.take(i - from))) by {
            assert forall|j: int| 0 <= j < i - from implies is_digit(
                #[trigger] body.take(i - from)[j],
            ) by {
                if j < i - from - 1 {
                    assert(body.take(i - from - 1)[j] == body[j]);
                }
            }
        }
    }
    assert(body.take(body.len() as int) =~= body);
    Some(value)
}

proof fn lemma_digits_grow(s: Seq<char>, k: int)
    requires
        0 <= k <= s.len(),
    ensures
        digits_value(s.take(k)) <= digits_value(s),
    decreases s.len(),
{
    if k < s.len() {
        lemma_digits_grow(s.drop_last(), k);
        assert(s.drop_last().take(k) =~= s.take(k));
    } else {
        assert(s.take(k) =~= s);
    }
}

/// The number that `s` denotes, if it is at most `max`.
fn parse_up_to(s: &str, max: u64) -> (r: Option<u64>)
    ensures
        r matches Some(n) ==> parsed(s@, max as nat) == Some(n as nat),
        r is None ==> parsed(s@, max as nat) is None,
{
    let v = chars_of(s);
    let mut from: usize = 0;
    if v.len() > 0 && v[0] == '+' {
        from = 1;
    } else {
        assert(s@.skip(0) =~= s@);
    }
    if from == v.len() {
        return None;
    }
    digits_number(&v, from, max)
}

/// The `u32` that `s` denotes in decimal.
pub fn parse_u32(s: &str) -> (r: Option<u32>)
    ensures
        r matches Some(n) ==> parsed(s@, u32::MAX as nat) == Some(n as nat),
        r is None ==> parsed(s@, u32::MAX as nat) is None,
{
    match parse_up_to(s, u32::MAX as u64) {
        Some(n) => Some(n as u32),
        None => None,
    }
}

/// The `u64` that `s` denotes in decimal.
pub fn parse_u64(s: &str) -> (r: Option<u64>)
    ensures
        r matches Some(n) ==> parsed(s@, u64::MAX as nat) == Some(n as nat),
        r is None ==> parsed(s@, u64::MAX as nat) is None,
{
    parse_up_to(s, u64::MAX)
}

// ── Letter case and decoding, from the standard library ─────────────────────

/// Whether every character of `s` is ASCII.
pub open spec fn all_ascii(s: Seq<char>) -> bool {
    forall|i: int| 0 <= i < s.len() ==> (#[trigger] s[i] as u32) < 128
}

/// `c` with an ASCII small letter made capital.
pub open spec fn upper(c: char) -> char {
    if 'a' <= c <= 'z' {
        ((c as u32) - 32) as char
    } else {
        c
    }
}

/// `s` with every ASCII small letter made capital.
pub open spec fn uppered(s: Seq<char>) -> Seq<char> {
    Seq::new(s.len(), |i: int| upper(s[i]))
}

/// What `str::to_lowercase` gives for the characters of a string.
pub uninterp spec fn lowercase(s: Seq<char>) -> Seq<char>;

/// What `str::to_uppercase` gives for the characters of a string.
pub uninterp spec fn uppercase(s: Seq<char>) -> Seq<char>;

/// What `String::from_utf8_lossy` gives for a sequence of bytes.
pub uninterp spec fn lossy(bytes: Seq<u8>) -> Seq<char>;

/// What `char::is_alphabetic` says of a character.
pub uninterp spec fn alphabetic(c: char) -> bool;

/// `s` in small letters: those of ASCII where it is ASCII, else as `str::to_lowercase`
/// makes them.
pub open spec fn small_case(s: Seq<char>) -> Seq<char> {
    if all_ascii(s) {
        lowered(s)
    } else {
        lowercase(s)
    }
}

/// `s` in capital letters: those of ASCII where it is ASCII, else as `str::to_uppercase`
/// makes them.
pub open spec fn capitals(s: Seq<char>) -> Seq<char> {
    if all_ascii(s) {
        uppered(s)
    } else {
        uppercase(s)
    }
}

/// The text that bytes hold: decoded where they are valid UTF-8, else as
/// `String::from_utf8_lossy` makes it.
pub open spec fn text_of(bytes: Seq<u8>) -> Seq<char> {
    if vstd::utf8::valid_utf8(bytes) {
        vstd::utf8::decode_utf8(bytes)
    } else {
        lossy(bytes)
    }
}

/// `str::to_lowercase`. The contract claims that the result depends on the characters
/// of the string alone, and that an ASCII string only has its capital letters made
/// small. How other letters change is left to the Unicode tables of the standard library.
#[verifier::external_body]
pub(crate) fn to_lowercase(s: &str) -> (r: String)
    ensures
        r@ == lowercase(s@),
        all_ascii(s@) ==> r@ == lowered(s@),
{
    s.to_lowercase()
}

/// `str::to_uppercase`. The contract claims that the result depends on the characters
/// of the string alone, and that an ASCII string only has its small letters made
/// capital. How other letters change is left to the Unicode tables of the standard
/// library.
#[verifier::external_body]
pub(crate) fn to_uppercase(s: &str) -> (r: String)
    ensures
        r@ == uppercase(s@),
        all_ascii(s@) ==> r@ == uppered(s@),
{
    s.to_uppercase()
}

/// `char::is_alphabetic`. The contract claims that the result depends on the character
/// alone. Which characters are letters is left to the Unicode tables of the standard
/// library.
#[verifier::external_body]
pub(crate) fn is_alphabetic(c: char) -> (r: bool)
    ensures
        r == alphabetic(c),
{
    c.is_alphabetic()
}

/// `String::from_utf8_lossy`, as an owned string. The contract claims that the result
/// depends on the bytes alone and that valid UTF-8 is decoded. What stands for invalid
/// bytes is not described further.
#[verifier::external_body]
pub(crate) fn from_utf8_lossy(bytes: &[u8]) -> (r: String)
    ensures
        r@ == lossy(bytes@),
        vstd::utf8::valid_utf8(bytes@) ==> r@ == vstd::utf8::decode_utf8(bytes@),
{
    String::from_utf8_lossy(bytes).into_owned()
}

// ── How the primitives fit together ─────────────────────────────────────────

pub(crate) proof fn lemma_find_char(a: Seq<char>, c: char, b: Seq<char>)
    requires
        !a.contains(c),
    ensures
        find(a + seq![c] + b, seq![c]) == Some(a.len() as int),
        find(a, seq![c]) is None,
{
    let s = a + seq![c] + b;
    let p = seq![c];
    assert(s.subrange(a.len() as int, a.len() as int + 1) =~= p);
    assert forall|j: int| 0 <= j < a.len() implies !at(s, j, p) by {
        assert(s.subrange(j, j + 1)[0] == a[j]);
        assert(a.contains(a[j]));
    }
    lemma_find_at(s, p, a.len() as int);
    find_is_least(a, p);
    if contains(a, p) {
        let i = choose|i: int| at(a, i, p);
        assert(a.subrange(i, i + 1)[0] == a[i]);
        assert(a.contains(a[i]));
    }
}

/// A separator splits a text where it stands and nowhere else: what precedes the first
/// one is the first piece, the rest is split by itself, and a text without one is its own
/// only piece.
pub proof fn splitting_takes_pieces_off(a: Seq<char>, c: char, b: Seq<char>)
    requires
        !a.contains(c),
    ensures
        split(a, c) == seq![a],
        split(a + seq![c] + b, c) == seq![a] + split(b, c),
{
    lemma_find_char(a, c, b);
    let s = a + seq![c] + b;
    assert(s.take(a.len() as int) =~= a);
    assert(s.skip(a.len() as int + 1) =~= b);
}

/// Splitting loses nothing: the pieces joined by the separator are the text again.
pub proof fn splitting_loses_nothing(s: Seq<char>, c: char)
    ensures
        joined(split(s, c), seq![c]) == s,
        split(s, c).len() > 0,
        forall|i: int| 0 <= i < split(s, c).len() ==> !(#[trigger] split(s, c)[i]).contains(c),
    decreases s.len(),
{
    let p = seq![c];
    find_is_least(s, p);
    match find(s, p) {
        None => {
            if s.contains(c) {
                let i = choose|i: int| 0 <= i < s.len() && s[i] == c;
                assert(s.subrange(i, i + 1) =~= p);
                assert(at(s, i, p));
            }
        },
        Some(k) => {
            let head = s.take(k);
            let rest = s.skip(k + 1);
            splitting_loses_nothing(rest, c);
            let parts = split(s, c);
            lemma_joined_first(parts, p);
            assert(parts.skip(1) =~= split(rest, c));
            assert(s.subrange(k, k + 1)[0] == c);
            assert(head + p + rest =~= s);
            if head.contains(c) {
                let i = choose|i: int| 0 <= i < head.len() && head[i] == c;
                assert(s.subrange(i, i + 1) =~= p);
                assert(at(s, i, p));
            }
            assert forall|i: int| 0 <= i < parts.len() implies !(#[trigger] parts[i]).contains(
                c,
            ) by {
                if i > 0 {
                    assert(parts[i] == split(rest, c)[i - 1]);
                }
            }
        },
    }
}

/// What was joined splits into itself: pieces that do not hold the separator come back
/// from the text in which it stands between them.
pub proof fn joined_pieces_come_back(parts: Seq<Seq<char>>, c: char)
    requires
        parts.len() > 0,
        forall|i: int| 0 <= i < parts.len() ==> !(#[trigger] parts[i]).contains(c),
    ensures
        split(joined(parts, seq![c]), c) == parts,
    decreases parts.len(),
{
    if parts.len() == 1 {
        splitting_takes_pieces_off(parts[0], c, Seq::empty());
        assert(seq![parts[0]] =~= parts);
    } else {
        let rest = parts.skip(1);
        assert forall|i: int| 0 <= i < rest.len() implies !(#[trigger] rest[i]).contains(c) by {
            assert(rest[i] == parts[i + 1]);
        }
        joined_pieces_come_back(rest, c);
        lemma_joined_first(parts, seq![c]);
        splitting_takes_pieces_off(parts[0], c, joined(rest, seq![c]));
        assert(seq![parts[0]] + rest =~= parts);
    }
}

/// Trimming takes off what is to be dropped at both ends and nothing else: a text that
/// neither begins nor ends with a dropped character comes back from between any number of
/// dropped ones.
pub proof fn trimming_takes_off_the_ends(
    a: Seq<char>,
    s: Seq<char>,
    b: Seq<char>,
    drop: spec_fn(char) -> bool,
)
    requires
        forall|i: int| 0 <= i < a.len() ==> drop(#[trigger] a[i]),
        forall|i: int| 0 <= i < b.len() ==> drop(#[trigger] b[i]),
        s.len() > 0 ==> !drop(s[0]) && !drop(s.last()),
    ensures
        trim_by(a + s + b, drop) == s,
        s.len() > 0 ==> trim_start_by(a + s + b, drop) == s + b,
        s.len() > 0 ==> trim_end_by(a + s + b, drop) == a + s,
        s.len() == 0 ==> trim_start_by(a + s + b, drop) == s,
        s.len() == 0 ==> trim_end_by(a + s + b, drop) == s,
{
    let t = a + s + b;
    if s.len() == 0 {
        assert forall|i: int| 0 <= i < t.len() implies drop(#[trigger] t[i]) by {
            if i < a.len() {
                assert(t[i] == a[i]);
            } else {
                assert(t[i] == b[i - a.len()]);
            }
        }
        lemma_trim_start(t, drop, t.len() as int);
        lemma_trim_end(t, drop, 0);
        assert(t.skip(t.len() as int) =~= s);
        assert(t.take(0) =~= s);
        assert(trim_end_by(s, drop) =~= s);
    } else {
        let n = a.len() as int;
        assert(t[n] == s[0]);
        assert(t[n + s.len() - 1] == s.last());
        assert forall|i: int| 0 <= i < n implies drop(#[trigger] t[i]) by {
            assert(t[i] == a[i]);
        }
        assert forall|i: int| n + s.len() <= i < t.len() implies drop(#[trigger] t[i]) by {
            assert(t[i] == b[i - n - s.len()]);
        }
        lemma_trim_start(t, drop, n);
        lemma_trim_end(t, drop, n + s.len());
        assert(t.skip(n) =~= s + b);
        assert(t.take(n + s.len()) =~= a + s);
        let u = s + b;
        assert forall|i: int| s.len() <= i < u.len() implies drop(#[trigger] u[i]) by {
            assert(u[i] == b[i - s.len()]);
        }
        lemma_trim_end(u, drop, s.len() as int);
        assert(u.take(s.len() as int) =~= s);
    }
}

/// What precedes a line break is a line, without the carriage return that ends it; the
/// rest is read by itself. A text without a line break is one line, and an empty one none.
pub proof fn line_breaks_end_lines(a: Seq<char>, b: Seq<char>)
    requires
        !a.contains('\n'),
    ensures
        a.len() > 0 ==> lines_of(a) == seq![a],
        a.len() == 0 ==> lines_of(a) == Seq::<Seq<char>>::empty(),
        lines_of(a + seq!['\r', '\n'] + b) == seq![a] + lines_of(b),
        a.len() == 0 || a.last() != '\r' ==> lines_of(a + seq!['\n'] + b) == seq![a] + lines_of(b),
{
    lemma_find_char(a, '\n', b);
    let s = a + seq!['\n'] + b;
    assert(s.take(a.len() as int) =~= a);
    assert(s.skip(a.len() as int + 1) =~= b);
    let r = a.push('\r');
    let t = r + seq!['\n'] + b;
    assert(!r.contains('\n')) by {
        if r.contains('\n') {
            let i = choose|i: int| 0 <= i < r.len() && r[i] == '\n';
            assert(a[i] == '\n');
        }
    }
    lemma_find_char(r, '\n', b);
    assert(t =~= a + seq!['\r', '\n'] + b);
    assert(t.take(r.len() as int) =~= r);
    assert(t.skip(r.len() as int + 1) =~= b);
    assert(r.drop_last() =~= a);
}

/// A word is what stands up to the next white space; the rest is read by itself, whatever
/// white space precedes it.
pub proof fn white_space_ends_words(a: Seq<char>, w: Seq<char>, c: char, b: Seq<char>)
    requires
        forall|i: int| 0 <= i < a.len() ==> is_white(#[trigger] a[i]),
        w.len() > 0,
        forall|i: int| 0 <= i < w.len() ==> !is_white(#[trigger] w[i]),
        is_white(c),
    ensures
        words_of(a) == Seq::<Seq<char>>::empty(),
        words_of(a + w) == seq![w],
        words_of(a + w + seq![c] + b) == seq![w] + words_of(b),
{
    let none = Seq::<char>::empty();
    trimming_takes_off_the_ends(a, none, none, whites());
    assert(a + none + none =~= a);
    assert(!is_white(w[0]));
    lemma_trim_start(a + w, whites(), a.len() as int);
    assert((a + w).skip(a.len() as int) =~= w);
    lemma_word_len_is(w, w.len() as int);
    assert(w.take(w.len() as int) =~= w);
    assert(w.skip(w.len() as int) =~= none);
    assert(words_of(none) =~= Seq::<Seq<char>>::empty());
    assert(words_of(a + w) =~= seq![w]);
    let rest = seq![c] + b;
    let s = a + w + seq![c] + b;
    lemma_trim_start(s, whites(), a.len() as int);
    let t = s.skip(a.len() as int);
    assert(t =~= w + rest);
    lemma_word_len_is(t, w.len() as int);
    assert(t.take(w.len() as int) =~= w);
    assert(t.skip(w.len() as int) =~= rest);
    assert(rest[0] == c);
    assert(rest.skip(1) =~= b);
    assert(trim_start_by(rest, whites()) == trim_start_by(b, whites()));
    assert(words_of(rest) == words_of(b));
    assert(words_of(s) == seq![w] + words_of(rest));
}

/// The words of a text, joined by single spaces, are its words again.
pub proof fn joined_words_come_back(words: Seq<Seq<char>>)
    requires
        forall|i: int| 0 <= i < words.len() ==> (#[trigger] words[i]).len() > 0,
        forall|i: int, j: int|
            0 <= i < words.len() && 0 <= j < words[i].len() ==> !is_white(#[trigger] words[i][j]),
    ensures
        words_of(joined(words, seq![' '])) == words,
    decreases words.len(),
{
    let none = Seq::<char>::empty();
    if words.len() == 0 {
        assert(words_of(none) =~= words);
    } else if words.len() == 1 {
        white_space_ends_words(none, words[0], ' ', none);
        assert(none + words[0] =~= words[0]);
        assert(seq![words[0]] =~= words);
    } else {
        let rest = words.skip(1);
        assert forall|i: int| 0 <= i < rest.len() implies (#[trigger] rest[i]).len() > 0 by {
            assert(rest[i] == words[i + 1]);
        }
        assert forall|i: int, j: int| 0 <= i < rest.len() && 0 <= j < rest[i].len() implies
            !is_white(#[trigger] rest[i][j]) by {
            assert(rest[i][j] == words[i + 1][j]);
        }
        joined_words_come_back(rest);
        lemma_joined_first(words, seq![' ']);
        let more = joined(rest, seq![' ']);
        white_space_ends_words(none, words[0], ' ', more);
        assert(none + words[0] + seq![' '] + more =~= words[0] + seq![' '] + more);
        assert(seq![words[0]] + rest =~= words);
    }
}

/// Small letters stay, ASCII capital letters become the small letter 32 places on, and
/// nothing else changes.
pub proof fn lowering_changes_capitals_only(a: Seq<char>, b: Seq<char>)
    ensures
        lowered(a).len() == a.len(),
        lowered(a + b) == lowered(a) + lowered(b),
        lowered(lowered(a)) == lowered(a),
        forall|i: int|
            0 <= i < a.len() && 'A' <= a[i] <= 'Z' ==> (#[trigger] lowered(a)[i]) as int
                == a[i] as int + 32,
        forall|i: int|
            0 <= i < a.len() && !('A' <= a[i] <= 'Z') ==> (#[trigger] lowered(a)[i]) == a[i],
{
    assert(lowered(a + b) =~= lowered(a) + lowered(b));
    assert(lowered(lowered(a)) =~= lowered(a));
}

/// Replacing takes the first occurrence: what precedes it stays, the replacement follows,
/// and the rest is replaced by itself.
pub proof fn replacing_takes_the_first(
    a: Seq<char>,
    from: Seq<char>,
    to: Seq<char>,
    b: Seq<char>,
)
    requires
        from.len() > 0,
        forall|j: int| 0 <= j < a.len() ==> !at(a + from + b, j, from),
    ensures
        replaced(a + from + b, from, to) == a + to + replaced(b, from, to),
{
    let s = a + from + b;
    let n = a.len() as int;
    assert(s.subrange(n, n + from.len()) =~= from);
    lemma_find_at(s, from, n);
    assert(s.take(n) =~= a);
    assert(s.skip(n + from.len()) =~= b);
}

/// The last items are the end of the list: as many as are asked for, or all where there are
/// fewer.
pub proof fn the_last_items_are_the_end(a: Seq<Seq<char>>, b: Seq<Seq<char>>, n: nat)
    ensures
        last_n(a + b, b.len()) == b,
        a.len() <= n ==> last_n(a, n) == a,
        a.len() > n ==> last_n(a, n).len() == n,
{
    assert((a + b).skip(a.len() as int) =~= b);
    assert(a.len() == 0 ==> a + b =~= b);
}

/// Copies of a text at either end are taken off, all of them and nothing else: a copy in
/// front or behind makes no difference, and what is left neither begins nor ends with one.
pub proof fn copies_are_taken_off(s: Seq<char>, pat: Seq<char>)
    requires
        pat.len() > 0,
    ensures
        without_prefixes(pat + s, pat) == without_prefixes(s, pat),
        without_suffixes(s + pat, pat) == without_suffixes(s, pat),
        !begins(without_prefixes(s, pat), pat),
        !ends(without_suffixes(s, pat), pat),
        !begins(s, pat) ==> without_prefixes(s, pat) == s,
        !ends(s, pat) ==> without_suffixes(s, pat) == s,
    decreases s.len(),
{
    assert((pat + s).take(pat.len() as int) =~= pat);
    assert((pat + s).skip(pat.len() as int) =~= s);
    assert((s + pat).skip(s.len() as int) =~= pat);
    assert((s + pat).take(s.len() as int) =~= s);
    if begins(s, pat) {
        copies_are_taken_off(s.skip(pat.len() as int), pat);
    }
    if ends(s, pat) {
        copies_are_taken_off(s.take(s.len() - pat.len()), pat);
    }
}

/// The classes of characters by their code points: in ASCII, white space is the space and
/// what lies between the tab and the carriage return, beyond it nineteen more characters;
/// nothing that belongs to a word of letters and digits is white, and digits are the ten
/// characters from `0` on.
pub proof fn characters_have_their_class(c: char)
    ensures
        (c as u32) < 128 ==> (is_white(c) <==> c as u32 == 32 || 9 <= c as u32 <= 13),
        (c as u32) >= 128 ==> (is_white(c) <==> c as u32 == 133 || c as u32 == 160 || c as u32
            == 5760 || 8192 <= c as u32 <= 8202 || c as u32 == 8232 || c as u32 == 8233 || c as u32
            == 8239 || c as u32 == 8287 || c as u32 == 12288),
        is_digit(c) <==> 0 <= c as int - '0' as int <= 9,
        is_digit(c) ==> is_alnum(c),
        is_alnum(c) ==> !is_white(c) && (c as u32) < 128,
        is_alnum(c) && !is_digit(c) <==> 0 <= c as int - 'a' as int <= 25 || 0 <= c as int
            - 'A' as int <= 25,
{
}

} // verus!
