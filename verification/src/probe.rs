//! The targets by which the bypass is tested: sites reached over TLS, and addresses
//! reached over TCP.
use vstd::prelude::*;

use crate::text::{
    cat, cat3, decimal_text, lines, position, replace, starts_with, strip_prefix, tail, trim, trim_char,
    trim_end_char, trim_end_text, trim_start_text,
};

verus! {

use crate::text::{
    after_prefix, begins, decimal, decimal_reads_back, ends, find, is_white, lemma_decimal,
    lemma_find_char, lemma_trim_end, lemma_trim_end_fact, lemma_trim_start_fact, lines_of, only,
    opt_str, parsed, replaced, replacing_a_char_maps_it, texts, trim_by, trim_end_by,
    trim_start_by, trimmed, trimming_takes_off_the_ends, whites, without_prefixes,
    without_suffixes,
};

/// A target.
#[derive(Debug)]
pub enum Probe {
    /// A site, by its full address.
    Https(String),
    /// A host and a port.
    Tcp(String),
}

/// A target as a mathematical value.
pub enum ProbeView {
    Https(Seq<char>),
    Tcp(Seq<char>),
}

impl View for Probe {
    type V = ProbeView;

    open spec fn view(&self) -> ProbeView {
        match self {
            Probe::Https(u) => ProbeView::Https(u@),
            Probe::Tcp(a) => ProbeView::Tcp(a@),
        }
    }
}

impl Clone for Probe {
    fn clone(&self) -> (r: Self)
        ensures
            r@ == self@,
    {
        match self {
            Probe::Https(u) => Probe::Https(u.clone()),
            Probe::Tcp(a) => Probe::Tcp(a.clone()),
        }
    }
}

/// An optional target as a mathematical value.
pub open spec fn opt_view(p: Option<Probe>) -> Option<ProbeView> {
    match p {
        Some(x) => Some(x@),
        None => None,
    }
}

/// Targets as mathematical values.
pub open spec fn probes_view(v: Seq<Probe>) -> Seq<ProbeView> {
    Seq::new(v.len(), |i: int| v[i]@)
}

/// The target that a value names: `PING:` and an address, an address of a site, or the
/// bare name of one. A blank value names none.
pub open spec fn value_target(value: Seq<char>) -> Option<ProbeView> {
    let v = trimmed(trim_by(trimmed(value), only('"')));
    match after_prefix(v, "PING:"@) {
        Some(ip) => if trimmed(ip).len() > 0 {
            Some(ProbeView::Tcp(trimmed(ip) + ":443"@))
        } else {
            None
        },
        None => if begins(v, "http://"@) || begins(v, "https://"@) {
            Some(ProbeView::Https(v))
        } else if v.len() > 0 {
            Some(ProbeView::Https("https://"@ + v))
        } else {
            None
        },
    }
}

/// The target that a line `Name = "value"` names. Blank lines and comments name none.
pub open spec fn line_target(line: Seq<char>) -> Option<ProbeView> {
    let l = trimmed(line);
    if l.len() == 0 || begins(l, "#"@) {
        None
    } else {
        match find(l, "="@) {
            Some(i) => value_target(l.skip(i + 1)),
            None => None,
        }
    }
}

/// The targets that lines name.
pub open spec fn line_targets(ls: Seq<Seq<char>>) -> Seq<ProbeView>
    decreases ls.len(),
{
    if ls.len() == 0 {
        Seq::empty()
    } else {
        let before = line_targets(ls.drop_last());
        match line_target(ls.last()) {
            Some(p) => before.push(p),
            None => before,
        }
    }
}

/// A target as it is shown: a site without the scheme and the slash at its end, an address
/// without the usual port.
pub open spec fn label_of(p: ProbeView) -> Seq<char> {
    match p {
        ProbeView::Https(u) => trim_end_by(
            without_prefixes(without_prefixes(u, "https://"@), "http://"@),
            only('/'),
        ),
        ProbeView::Tcp(a) => without_suffixes(a, ":443"@),
    }
}

impl Probe {
    /// The target that a line `Name = "value"` of the targets file names.
    pub fn parse_line(line: &str) -> (r: Option<Probe>)
        ensures
            opt_view(r) == line_target(line@),
    {
        let l = trim(line);
        if l.is_empty() || starts_with(l, "#") {
            return None;
        }
        proof {
            reveal_strlit("=");
        }
        match position(l, "=") {
            Some(i) => Probe::parse_value(tail(l, i + 1)),
            None => None,
        }
    }

    /// The target that a value names.
    pub fn parse_value(value: &str) -> (r: Option<Probe>)
        ensures
            opt_view(r) == value_target(value@),
    {
        let v = trim(trim_char(trim(value), '"'));
        match strip_prefix(v, "PING:") {
            Some(rest) => {
                let ip = trim(rest);
                if ip.is_empty() {
                    None
                } else {
                    Some(Probe::Tcp(cat(ip, ":443")))
                }
            },
            None => {
                if starts_with(v, "http://") || starts_with(v, "https://") {
                    Some(Probe::Https(v.to_owned()))
                } else if !v.is_empty() {
                    Some(Probe::Https(cat("https://", v)))
                } else {
                    None
                }
            },
        }
    }

    /// The target as it is shown.
    pub fn label(&self) -> (r: String)
        ensures
            r@ == label_of(self@),
    {
        proof {
            reveal_strlit("https://");
            reveal_strlit("http://");
            reveal_strlit(":443");
        }
        match self {
            Probe::Https(url) => {
                let a = trim_start_text(url.as_str(), "https://");
                let b = trim_start_text(a, "http://");
                trim_end_char(b, '/').to_owned()
            },
            Probe::Tcp(addr) => trim_end_text(addr.as_str(), ":443").to_owned(),
        }
    }
}

/// The targets in the text of a targets file.
pub fn parse_targets(text: &str) -> (r: Vec<Probe>)
    ensures
        probes_view(r@) == line_targets(lines_of(text@)),
{
    let all = lines(text);
    let ghost ls = texts(all@);
    let mut v: Vec<Probe> = Vec::new();
    let mut i: usize = 0;
    assert(ls.take(0) =~= Seq::<Seq<char>>::empty());
    assert(probes_view(v@) =~= Seq::<ProbeView>::empty());
    while i < all.len()
        invariant
            i <= all@.len(),
            ls == texts(all@),
            probes_view(v@) == line_targets(ls.take(i as int)),
        decreases all@.len() - i,
    {
        let ghost before = probes_view(v@);
        proof {
            assert(ls.take(i + 1).drop_last() =~= ls.take(i as int));
            assert(ls.take(i + 1).last() == all@[i as int]@);
        }
        match Probe::parse_line(all[i].as_str()) {
            Some(p) => {
                v.push(p);
                assert(probes_view(v@) =~= before.push(p@));
            },
            None => {},
        }
        i += 1;
    }
    assert(ls.take(ls.len() as int) =~= ls);
    v
}

/// The targets of the auto-selection.
pub open spec fn selection_targets() -> Seq<ProbeView> {
    seq![ProbeView::Https("https://www.youtube.com"@), ProbeView::Https("https://discord.com"@)]
}

/// The targets of the auto-selection: the two sites that have to work.
pub fn autoselect_targets() -> (r: Vec<Probe>)
    ensures
        probes_view(r@) == selection_targets(),
{
    let mut v: Vec<Probe> = Vec::new();
    v.push(Probe::Https("https://www.youtube.com".to_owned()));
    v.push(Probe::Https("https://discord.com".to_owned()));
    assert(probes_view(v@) =~= selection_targets());
    v
}

/// The targets of a file, or others where it names none.
pub open spec fn targets_or(text: Option<Seq<char>>, others: Seq<ProbeView>) -> Seq<ProbeView> {
    match text {
        Some(t) => if line_targets(lines_of(t)).len() > 0 {
            line_targets(lines_of(t))
        } else {
            others
        },
        None => others,
    }
}

/// The targets of the verification: those of the targets file, or those of the
/// auto-selection where it names none.
pub fn load_targets_file(text: Option<&str>) -> (r: Vec<Probe>)
    ensures
        probes_view(r@) == targets_or(opt_str(text), selection_targets()),
{
    match text {
        Some(t) => {
            let v = parse_targets(t);
            assert(probes_view(v@).len() == v@.len());
            if v.len() > 0 {
                return v;
            }
        },
        None => {},
    }
    autoselect_targets()
}

/// The targets of the test: those of the targets file, or three well-known sites.
pub fn load_targets(text: Option<&str>) -> (r: Vec<Probe>)
    ensures
        probes_view(r@) == targets_or(
            opt_str(text),
            seq![
                ProbeView::Https("https://www.youtube.com"@),
                ProbeView::Https("https://discord.com"@),
                ProbeView::Https("https://www.google.com"@),
            ],
        ),
{
    match text {
        Some(t) => {
            let v = parse_targets(t);
            assert(probes_view(v@).len() == v@.len());
            if v.len() > 0 {
                return v;
            }
        },
        None => {},
    }
    let mut v = autoselect_targets();
    let ghost two = probes_view(v@);
    v.push(Probe::Https("https://www.google.com".to_owned()));
    assert(probes_view(v@) =~= two.push(ProbeView::Https("https://www.google.com"@)));
    assert(two.push(ProbeView::Https("https://www.google.com"@)) =~= seq![
        ProbeView::Https("https://www.youtube.com"@),
        ProbeView::Https("https://discord.com"@),
        ProbeView::Https("https://www.google.com"@),
    ]);
    v
}

/// How a target answered.
#[derive(Debug)]
pub enum Reply {
    /// With success.
    Fine,
    /// With this status, which is an answer too.
    Status(u16),
    /// Not at all: the kind of the failure, and its text.
    Transport(String, String),
    /// The connection was not made, for this reason.
    Unconnected(String),
    /// The name has no address.
    Homeless,
    /// The name was not resolved, for this reason.
    Unresolved(String),
}

/// Whether a target counts as reached: any answer counts.
pub open spec fn reached(reply: Reply) -> bool {
    reply is Fine || reply is Status
}

/// What the log says of an answer. It is one line for every answer of a site.
pub open spec fn reply_words(reply: Reply) -> Seq<char> {
    match reply {
        Reply::Fine => "ok"@,
        Reply::Status(code) => "http "@ + decimal(code as nat),
        Reply::Transport(kind, why) => replaced(kind@ + ": "@ + why@, "\n"@, " "@),
        Reply::Unconnected(why) => "tcp: "@ + why@,
        Reply::Homeless => "нет адреса"@,
        Reply::Unresolved(why) => "dns: "@ + why@,
    }
}

/// Whether a target counts as reached, and what the log says of it.
pub fn check_detail(reply: &Reply) -> (r: (bool, String))
    ensures
        r.0 == reached(*reply),
        r.1@ == reply_words(*reply),
{
    match reply {
        Reply::Fine => (true, "ok".to_owned()),
        Reply::Status(code) => (true, cat("http ", decimal_text(*code as u64).as_str())),
        Reply::Transport(kind, why) => {
            proof {
                reveal_strlit("\n");
            }
            let text = cat3(kind.as_str(), ": ", why.as_str());
            (false, replace(text.as_str(), "\n", " "))
        },
        Reply::Unconnected(why) => (false, cat("tcp: ", why.as_str())),
        Reply::Homeless => (false, "нет адреса".to_owned()),
        Reply::Unresolved(why) => (false, cat("dns: ", why.as_str())),
    }
}

// ── What holds of all targets ───────────────────────────────────────────────

/// Every answer of a site counts as reached, with success or with any status. Only where
/// no answer came does it not count: a failed exchange, a connection that was not made, a
/// name without an address and one that was not resolved.
pub proof fn every_answer_counts(code: u16, kind: String, why: String)
    ensures
        reached(Reply::Fine),
        reached(Reply::Status(code)),
        !reached(Reply::Transport(kind, why)),
        !reached(Reply::Unconnected(why)),
        !reached(Reply::Homeless),
        !reached(Reply::Unresolved(why)),
{
}

/// The log tells the answers apart: the status can be read back from what it says, and a
/// failed exchange takes one line, whatever its text holds, in which every character but
/// the line breaks is kept.
pub proof fn the_log_tells_answers_apart(code: u16, kind: String, why: String)
    ensures
        ({
            let said = reply_words(Reply::Status(code));
            &&& said.len() > 5 && said.take(5) == "http "@
            &&& parsed(said.skip(5), u16::MAX as nat) == Some(code as nat)
        }),
        ({
            let said = reply_words(Reply::Transport(kind, why));
            let text = kind@ + ": "@ + why@;
            &&& !said.contains('\n')
            &&& said.len() == text.len()
            &&& forall|i: int|
                0 <= i < text.len() ==> #[trigger] said[i] == (if text[i] == '\n' {
                    ' '
                } else {
                    text[i]
                })
        }),
{
    reveal_strlit("http ");
    let said = reply_words(Reply::Status(code));
    decimal_reads_back(code as nat, u16::MAX as nat);
    lemma_decimal(code as nat);
    assert(said.take(5) =~= "http "@);
    assert(said.skip(5) =~= decimal(code as nat));
    reveal_strlit("\n");
    reveal_strlit(" ");
    assert("\n"@ =~= seq!['\n']);
    assert(" "@ =~= seq![' ']);
    replacing_a_char_maps_it(kind@ + ": "@ + why@, '\n', ' ');
}

/// A value as one writes it: not empty, without white space or quotation marks at its ends.
pub open spec fn bare(v: Seq<char>) -> bool {
    v.len() > 0 && !is_white(v[0]) && !is_white(v.last()) && v[0] != '"' && v.last() != '"'
}

proof fn lemma_bare(v: Seq<char>)
    requires
        bare(v),
    ensures
        trimmed(v) == v,
        trimmed(trim_by(trimmed(v), only('"'))) == v,
        trimmed(trim_by(trimmed("\""@ + v + "\""@), only('"'))) == v,
{
    reveal_strlit("\"");
    let none = Seq::<char>::empty();
    let q = "\""@;
    assert(none + v + none =~= v);
    trimming_takes_off_the_ends(none, v, none, whites());
    trimming_takes_off_the_ends(none, v, none, only('"'));
    let w = q + v + q;
    assert(w[0] == '"' && w.last() == '"');
    assert(none + w + none =~= w);
    trimming_takes_off_the_ends(none, w, none, whites());
    assert forall|i: int| 0 <= i < q.len() implies only('"')(#[trigger] q[i]) by {}
    trimming_takes_off_the_ends(q, v, q, only('"'));
}

/// Between quotation marks or without them, a value names the same target: a full address
/// is that site, a bare name is the site under `https://`, and `PING:` with an address is
/// that address at the port 443.
pub proof fn values_name_their_targets(v: Seq<char>)
    requires
        bare(v),
    ensures
        value_target("\""@ + v + "\""@) == value_target(v),
        begins(v, "http://"@) || begins(v, "https://"@) ==> value_target(v) == Some(
            ProbeView::Https(v),
        ),
        !begins(v, "http://"@) && !begins(v, "https://"@) && !begins(v, "PING:"@)
            ==> value_target(v) == Some(ProbeView::Https("https://"@ + v)),
        value_target("PING:"@ + v) == Some(ProbeView::Tcp(v + ":443"@)),
        value_target("\"PING:"@ + v + "\""@) == Some(ProbeView::Tcp(v + ":443"@)),
{
    lemma_bare(v);
    reveal_strlit("PING:");
    reveal_strlit("http://");
    reveal_strlit("https://");
    if begins(v, "PING:"@) && (begins(v, "http://"@) || begins(v, "https://"@)) {
        assert(v.take(5)[0] == 'P');
        if begins(v, "http://"@) {
            assert(v.take(7)[0] == 'h');
        } else {
            assert(v.take(8)[0] == 'h');
        }
    }
    let p = "PING:"@ + v;
    assert(p[0] == 'P' && p.last() == v.last());
    lemma_bare(p);
    assert(p.take(5) =~= "PING:"@);
    assert(p.skip(5) =~= v);
    reveal_strlit("\"");
    reveal_strlit("\"PING:");
    assert("\"PING:"@ + v + "\""@ =~= "\""@ + p + "\""@);
}

/// A line names the target of the value behind its first `=`; a comment, a blank line and
/// one without `=` name none.
pub proof fn lines_name_the_targets_of_their_values(name: Seq<char>, v: Seq<char>)
    requires
        v.len() == 0 || !is_white(v.last()),
    ensures
        name.len() > 0 && !is_white(name[0]) && name[0] != '#' && !name.contains('=')
            ==> line_target(name + "="@ + v) == value_target(v),
        line_target("#"@ + v) is None,
        !name.contains('=') ==> line_target(name) is None,
        line_target(Seq::empty()) is None,
{
    reveal_strlit("=");
    reveal_strlit("#");
    let none = Seq::<char>::empty();
    assert("="@ =~= seq!['=']);
    let l = name + "="@ + v;
    if name.len() > 0 && !is_white(name[0]) && name[0] != '#' && !name.contains('=') {
        assert(l[0] == name[0]);
        assert(!is_white('='));
        assert(l.last() == (if v.len() > 0 {
            v.last()
        } else {
            '='
        }));
        assert(none + l + none =~= l);
        trimming_takes_off_the_ends(none, l, none, whites());
        assert(!begins(l, "#"@)) by {
            assert(l.take(1)[0] == name[0]);
        }
        lemma_find_char(name, '=', v);
        assert(l.skip(name.len() as int + 1) =~= v);
    }
    let c = "#"@ + v;
    assert(c[0] == '#');
    assert(c.last() == (if v.len() > 0 {
        v.last()
    } else {
        '#'
    }));
    assert(none + c + none =~= c);
    trimming_takes_off_the_ends(none, c, none, whites());
    assert(c.take(1) =~= "#"@);
    if !name.contains('=') {
        lemma_trimmed_lacks(name, '=');
        lemma_find_char(trimmed(name), '=', none);
    }
    assert(none + none + none =~= none);
    trimming_takes_off_the_ends(none, none, none, whites());
}

proof fn lemma_trimmed_lacks(s: Seq<char>, c: char)
    requires
        !s.contains(c),
    ensures
        !trimmed(s).contains(c),
{
    let t = trim_start_by(s, whites());
    lemma_trim_start_fact(s, whites());
    lemma_trim_end_fact(t, whites());
    let u = trimmed(s);
    if u.contains(c) {
        let i = choose|i: int| 0 <= i < u.len() && u[i] == c;
        assert(t[i] == c);
        assert(s[s.len() - t.len() + i] == c);
    }
}

/// The targets of a file come in the order of its lines, and each line counts as often as
/// it stands there: those of one line are the one that it names, or none, and those of two
/// parts of a file follow each other.
pub proof fn targets_keep_the_order_of_lines(a: Seq<Seq<char>>, b: Seq<Seq<char>>)
    ensures
        a.len() == 1 ==> line_targets(a) == (match line_target(a[0]) {
            Some(p) => seq![p],
            None => Seq::empty(),
        }),
        line_targets(a + b) == line_targets(a) + line_targets(b),
    decreases b.len(),
{
    reveal_with_fuel(line_targets, 2);
    if b.len() == 0 {
        assert(a + b =~= a);
        assert(line_targets(a) + line_targets(b) =~= line_targets(a));
    } else {
        targets_keep_the_order_of_lines(a, b.drop_last());
        assert((a + b).drop_last() =~= a + b.drop_last());
        assert((a + b).last() == b.last());
        assert(line_targets(a + b) =~= line_targets(a) + line_targets(b));
    }
    if a.len() == 1 {
        assert(a.drop_last() =~= Seq::empty());
        assert(line_targets(a) =~= (match line_target(a[0]) {
            Some(p) => seq![p],
            None => Seq::empty(),
        }));
    }
}

/// A target is shown as one writes it: the bare name of a site, and the address behind
/// `PING:`.
pub proof fn targets_are_shown_as_written(v: Seq<char>)
    requires
        bare(v),
        v.last() != '/',
        !begins(v, "http://"@),
        !begins(v, "https://"@),
    ensures
        !begins(v, "PING:"@) ==> value_target(v) is Some && label_of(value_target(v)->0) == v,
        label_of(ProbeView::Https("https://"@ + v)) == v,
        label_of(ProbeView::Https("http://"@ + v)) == v,
        label_of(ProbeView::Https("https://"@ + v + "/"@)) == v,
        !ends(v, ":443"@) ==> label_of(value_target("PING:"@ + v)->0) == v,
{
    values_name_their_targets(v);
    reveal_strlit("https://");
    reveal_strlit("http://");
    reveal_strlit("/");
    reveal_strlit(":443");
    let none = Seq::<char>::empty();
    let s = "https://"@;
    let h = "http://"@;
    lemma_label(s + v, v, none);
    assert(v + none =~= v);
    assert(s + v =~= s + v + none);
    lemma_label(h + v, v, none);
    lemma_label(s + v + "/"@, v, "/"@);
    let a = v + ":443"@;
    assert(a.skip(a.len() - 4) =~= ":443"@);
    assert(a.take(a.len() - 4) =~= v);
    if !ends(v, ":443"@) {
        assert(without_suffixes(v, ":443"@) == v);
        assert(without_suffixes(a, ":443"@) == v);
    }
}

proof fn lemma_label(u: Seq<char>, v: Seq<char>, end: Seq<char>)
    requires
        bare(v),
        v.last() != '/',
        !begins(v, "http://"@),
        !begins(v, "https://"@),
        end == "/"@ || end == Seq::<char>::empty(),
        u == "https://"@ + v + end || u == "http://"@ + v + end,
    ensures
        label_of(ProbeView::Https(u)) == v,
{
    reveal_strlit("https://");
    reveal_strlit("http://");
    reveal_strlit("/");
    let none = Seq::<char>::empty();
    let s = "https://"@;
    let h = "http://"@;
    let w = v + end;
    assert(v[0] == w[0]);
    assert(!begins(w, s)) by {
        if begins(w, s) {
            assert(w.take(8)[7] == w[7] && w.take(8)[6] == w[6]);
            if v.len() >= 8 {
                assert(v.take(8) =~= w.take(8));
            } else {
                assert(v.last() == w[v.len() - 1]);
                assert(v.len() == 7);
            }
        }
    }
    assert(!begins(w, h)) by {
        if begins(w, h) {
            assert(w.take(7)[6] == w[6] && w.take(7)[5] == w[5]);
            if v.len() >= 7 {
                assert(v.take(7) =~= w.take(7));
            } else {
                assert(v.last() == w[v.len() - 1]);
                assert(v.len() == 6);
            }
        }
    }
    if u == s + v + end {
        assert(u.take(8) =~= s);
        assert(u.skip(8) =~= w);
        assert(without_prefixes(w, s) == w);
        assert(without_prefixes(u, s) == w);
    } else {
        assert(u[4] == ':' && s[4] == 's');
        assert(!begins(u, s)) by {
            if begins(u, s) {
                assert(u.take(8)[4] == u[4]);
            }
        }
        assert(u.take(7) =~= h);
        assert(u.skip(7) =~= w);
        assert(without_prefixes(w, h) == w);
        assert(without_prefixes(u, h) == w);
    }
    assert forall|i: int| 0 <= i < end.len() implies only('/')(#[trigger] end[i]) by {}
    assert(trim_end_by(w, only('/')) == v) by {
        lemma_trim_end(w, only('/'), v.len() as int);
        assert(w.take(v.len() as int) =~= v);
    }
}

/// The targets of a file count where it names any, and others stand in only where it names
/// none or is not there.
pub proof fn the_targets_of_the_file_count(text: Seq<char>, others: Seq<ProbeView>, i: int)
    ensures
        0 <= i < lines_of(text).len() && line_target(lines_of(text)[i]) is Some ==> targets_or(
            Some(text),
            others,
        ) == line_targets(lines_of(text)),
        (forall|k: int|
            0 <= k < lines_of(text).len() ==> line_target(#[trigger] lines_of(text)[k]) is None)
            ==> targets_or(Some(text), others) == others,
        targets_or(None, others) == others,
{
    lemma_some_target(lines_of(text));
}

proof fn lemma_some_target(ls: Seq<Seq<char>>)
    ensures
        line_targets(ls).len() == 0 <==> forall|k: int|
            0 <= k < ls.len() ==> line_target(#[trigger] ls[k]) is None,
    decreases ls.len(),
{
    if ls.len() > 0 {
        let t = ls.drop_last();
        lemma_some_target(t);
        assert forall|k: int| 0 <= k < t.len() implies t[k] == #[trigger] ls[k] by {}
        if line_targets(ls).len() == 0 {
            assert forall|k: int| 0 <= k < ls.len() implies line_target(
                #[trigger] ls[k],
            ) is None by {
                if k < t.len() {
                    assert(line_target(t[k]) is None);
                }
            }
        }
        if forall|k: int| 0 <= k < ls.len() ==> line_target(#[trigger] ls[k]) is None {
            assert forall|k: int| 0 <= k < t.len() implies line_target(#[trigger] t[k]) is None by {
                assert(t[k] == ls[k]);
            }
            assert(line_target(ls[ls.len() - 1]) is None);
        }
    }
}

} // verus!
