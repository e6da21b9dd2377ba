//! Elevation on Linux: this program runs itself again as root, through `pkexec`.
use vstd::prelude::*;

use crate::logging::Level;
use crate::text::{
    cat, cat3, join, join_path, lines, same, signed_text, split_on, split_whitespace, strings,
    strip_prefix, trim,
};

verus! {

use crate::text::{
    after_prefix, begins, below, is_white, joined, joined_pieces_come_back, line_breaks_end_lines,
    lines_of, opt_str, opt_text, signed, split, texts, trimmed, trimming_takes_off_the_ends,
    white_space_ends_words, whites, words_of,
};

/// The rest of the first line that begins with `key`.
pub open spec fn line_value(ls: Seq<Seq<char>>, key: Seq<char>) -> Option<Seq<char>>
    decreases ls.len(),
{
    if ls.len() == 0 {
        None
    } else {
        match after_prefix(ls[0], key) {
            Some(v) => Some(v),
            None => line_value(ls.skip(1), key),
        }
    }
}

/// The rest of the first line of `text` that begins with `key`.
pub fn find_line(text: &str, key: &str) -> (r: Option<String>)
    ensures
        opt_text(r) == line_value(lines_of(text@), key@),
{
    let all = lines(text);
    let ghost ls = texts(all@);
    let mut i: usize = 0;
    assert(ls.skip(0) =~= ls);
    while i < all.len()
        invariant
            i <= all@.len(),
            ls == texts(all@),
            ls == lines_of(text@),
            line_value(ls, key@) == line_value(ls.skip(i as int), key@),
        decreases all@.len() - i,
    {
        assert(ls.skip(i as int)[0] == all@[i as int]@);
        assert(ls.skip(i as int).skip(1) =~= ls.skip(i + 1));
        match strip_prefix(all[i].as_str(), key) {
            Some(v) => {
                return Some(v.to_owned());
            },
            None => {},
        }
        i += 1;
    }
    None
}

/// The effective user in a process status: the second number of its `Uid:` line.
pub open spec fn effective_uid(status: Seq<char>) -> Option<Seq<char>> {
    match line_value(lines_of(status), "Uid:"@) {
        Some(rest) => if words_of(rest).len() >= 2 {
            Some(words_of(rest)[1])
        } else {
            None
        },
        None => None,
    }
}

/// The effective user in a process status.
pub fn parse_euid(status: &str) -> (r: Option<String>)
    ensures
        opt_text(r) == effective_uid(status@),
{
    match find_line(status, "Uid:") {
        Some(rest) => {
            let words = split_whitespace(rest.as_str());
            assert(texts(words@).len() == words@.len());
            if words.len() >= 2 {
                assert(texts(words@)[1] == words@[1]@);
                Some(words[1].clone())
            } else {
                None
            }
        },
        None => None,
    }
}

/// Whether this process is root: by its status, or else by what `id -u` has printed.
pub open spec fn elevated(status: Option<Seq<char>>, id_out: Option<Seq<char>>) -> bool {
    let by_status = match status {
        Some(t) => effective_uid(t),
        None => None,
    };
    match by_status {
        Some(uid) => uid == "0"@,
        None => match id_out {
            Some(o) => trimmed(o) == "0"@,
            None => false,
        },
    }
}

/// Whether this process is root. `status` is what its status file holds, `id_out` what
/// `id -u` has printed.
pub fn is_elevated(status: Option<&str>, id_out: Option<&str>) -> (r: bool)
    ensures
        r == elevated(opt_str(status), opt_str(id_out)),
{
    match status {
        Some(t) => {
            match parse_euid(t) {
                Some(uid) => {
                    return same(uid.as_str(), "0");
                },
                None => {},
            }
        },
        None => {},
    }
    match id_out {
        Some(o) => same(trim(o), "0"),
        None => false,
    }
}

/// The directories of a search path, without the empty ones, with `pkexec` in each.
pub open spec fn in_each(dirs: Seq<Seq<char>>) -> Seq<Seq<char>>
    decreases dirs.len(),
{
    if dirs.len() == 0 {
        Seq::empty()
    } else if dirs.last().len() == 0 {
        in_each(dirs.drop_last())
    } else {
        in_each(dirs.drop_last()).push(below(dirs.last(), "pkexec"@))
    }
}

/// Where `pkexec` may be: in the search path, then in the usual places.
pub open spec fn pkexec_places(path: Option<Seq<char>>) -> Seq<Seq<char>> {
    (match path {
        Some(p) => in_each(split(p, ':')),
        None => Seq::empty(),
    }) + seq!["/usr/bin/pkexec"@, "/bin/pkexec"@, "/usr/local/bin/pkexec"@]
}

/// Where `pkexec` may be, in the order in which to look. `path` is the search path.
pub fn find_pkexec(path: Option<&str>) -> (r: Vec<String>)
    ensures
        texts(r@) == pkexec_places(opt_str(path)),
{
    let mut v: Vec<String> = Vec::new();
    match path {
        Some(p) => {
            let dirs = split_on(p, ':');
            let ghost ds = texts(dirs@);
            let mut i: usize = 0;
            assert(ds.take(0) =~= Seq::<Seq<char>>::empty());
            while i < dirs.len()
                invariant
                    i <= dirs@.len(),
                    ds == texts(dirs@),
                    texts(v@) == in_each(ds.take(i as int)),
                decreases dirs@.len() - i,
            {
                let ghost before = texts(v@);
                proof {
                    assert(ds.take(i + 1).drop_last() =~= ds.take(i as int));
                    assert(ds.take(i + 1).last() == dirs@[i as int]@);
                }
                if !dirs[i].as_str().is_empty() {
                    v.push(join_path(dirs[i].as_str(), "pkexec"));
                    assert(texts(v@) =~= before.push(below(dirs@[i as int]@, "pkexec"@)));
                }
                i += 1;
            }
            assert(ds.take(ds.len() as int) =~= ds);
        },
        None => {
            assert(texts(v@) =~= Seq::<Seq<char>>::empty());
        },
    }
    let ghost first = texts(v@);
    let mut usual = strings(&["/usr/bin/pkexec", "/bin/pkexec", "/usr/local/bin/pkexec"]);
    assert(texts(usual@) =~= seq![
        "/usr/bin/pkexec"@,
        "/bin/pkexec"@,
        "/usr/local/bin/pkexec"@,
    ]);
    let ghost rest = texts(usual@);
    v.append(&mut usual);
    assert(texts(v@) =~= first + rest);
    v
}

/// Which file this program is started from again.
#[derive(Clone, Copy, Debug, PartialEq, Eq, Structural)]
pub enum SelfExe {
    /// The image that holds the program: what runs now lies in a mounted copy of it, which
    /// is gone when the program ends.
    Image,
    /// The running file, with its links resolved.
    Resolved,
    /// The running file as it is.
    Running,
}

/// Which file this program is started from again: the image, where `image` says that the
/// one it was started from is a file; else the running file, where `exe` says that it is
/// known, with its links resolved where they can be.
pub fn self_exe_path(image: bool, exe: Result<(), &str>, resolved: bool) -> (r: Result<
    SelfExe,
    String,
>)
    ensures
        image ==> r == Ok::<SelfExe, String>(SelfExe::Image),
        !image ==> (match exe {
            Ok(_) => r == Ok::<SelfExe, String>(
                if resolved {
                    SelfExe::Resolved
                } else {
                    SelfExe::Running
                },
            ),
            Err(e) => r matches Err(m) && m@ == "не удалось определить путь к себе: "@ + e@,
        }),
{
    if image {
        return Ok(SelfExe::Image);
    }
    match exe {
        Ok(_) => if resolved {
            Ok(SelfExe::Resolved)
        } else {
            Ok(SelfExe::Running)
        },
        Err(e) => Err(cat("не удалось определить путь к себе: ", e)),
    }
}

/// How a run through `pkexec` ended.
#[derive(Debug)]
pub enum Ending {
    /// `pkexec` is not there.
    NoPkexec,
    /// It could not be started, for this reason.
    NotStarted(String),
    /// It ended with this code.
    Code(i32),
    /// A signal ended it, and it has no code.
    Signal(i32),
}

/// What a run through `pkexec` gives: the code of the program, or why there is none.
pub open spec fn elevation(e: Ending) -> Result<i32, Seq<char>> {
    match e {
        Ending::NoPkexec => Err("pkexec недоступен (polkit не установлен?)"@),
        Ending::NotStarted(why) => Err("не удалось запустить pkexec: "@ + why@),
        Ending::Code(c) => if c == 126 {
            Err("элевация отклонена/не авторизована (pkexec rc=126)"@)
        } else if c == 127 {
            Err("pkexec не смог запустить реинвок (rc=127)"@)
        } else {
            Ok(c)
        },
        Ending::Signal(s) => Err(
            "элевированный реинвок убит сигналом "@ + signed(s as int)
                + " (без кода выхода)"@,
        ),
    }
}

/// How loud the log is to be about it.
pub open spec fn elevation_level(e: Ending) -> Level {
    match e {
        Ending::Code(c) => if c == 126 {
            Level::Warn
        } else if c == 127 {
            Level::Error
        } else {
            Level::Info
        },
        _ => Level::Error,
    }
}

/// What a run through `pkexec` gives, and how loud the log is to be about it. The code is
/// that of the program, except for the two codes of `pkexec` itself: not authorised (or
/// the dialog was closed), and not able to start the program.
pub fn run_elevated_self(e: Ending) -> (r: (Result<i32, String>, Level))
    ensures
        match r.0 {
            Ok(c) => elevation(e) == Ok::<i32, Seq<char>>(c),
            Err(m) => elevation(e) == Err::<i32, Seq<char>>(m@),
        },
        r.1 == elevation_level(e),
{
    match e {
        Ending::NoPkexec => (
            Err("pkexec недоступен (polkit не установлен?)".to_owned()),
            Level::Error,
        ),
        Ending::NotStarted(why) => (
            Err(cat("не удалось запустить pkexec: ", why.as_str())),
            Level::Error,
        ),
        Ending::Code(c) => {
            if c == 126 {
                (
                    Err("элевация отклонена/не авторизована (pkexec rc=126)".to_owned()),
                    Level::Warn,
                )
            } else if c == 127 {
                (Err("pkexec не смог запустить реинвок (rc=127)".to_owned()), Level::Error)
            } else {
                (Ok(c), Level::Info)
            }
        },
        Ending::Signal(s) => (
            Err(
                cat3(
                    "элевированный реинвок убит сигналом ",
                    signed_text(s).as_str(),
                    " (без кода выхода)",
                ),
            ),
            Level::Error,
        ),
    }
}

/// What the log says before a run through `pkexec`.
pub fn call_line(exe: &str, args: &[String]) -> (r: String)
    ensures
        r@ == "вызываю pkexec для: "@ + exe@ + " "@ + joined(texts(args@), " "@),
{
    let mut s = cat3("вызываю pkexec для: ", exe, " ");
    s.append(join(args, " ").as_str());
    s
}

/// What the log says after it: the code of the program, or why there is none.
pub fn ending_line(result: &Result<i32, String>) -> (r: String)
    ensures
        r@ == (match *result {
            Ok(c) => "реинвок завершён, код="@ + signed(c as int),
            Err(e) => e@,
        }),
{
    match result {
        Ok(c) => cat("реинвок завершён, код=", signed_text(*c).as_str()),
        Err(e) => e.clone(),
    }
}

/// An elevated run that was not authorised is told from every other one: the error of the
/// code 126 comes from that code alone, so a closed dialog is never taken for the failure
/// of an operation, nor for its success.
pub proof fn refusal_is_told_apart(e: Ending)
    requires
        elevation(e) == elevation(Ending::Code(126)),
    ensures
        e == Ending::Code(126),
        elevation_level(e) is Warn,
{
    reveal_strlit("элевация отклонена/не авторизована (pkexec rc=126)");
    reveal_strlit("pkexec недоступен (polkit не установлен?)");
    reveal_strlit("не удалось запустить pkexec: ");
    reveal_strlit("pkexec не смог запустить реинвок (rc=127)");
    reveal_strlit("элевированный реинвок убит сигналом ");
    let refusal = "элевация отклонена/не авторизована (pkexec rc=126)"@;
    assert(refusal[5] == 'ц');
    match e {
        Ending::NotStarted(why) => {
            let s = "не удалось запустить pkexec: "@ + why@;
            assert(s[0] == 'н');
            assert(refusal[0] == 'э');
        },
        Ending::Signal(n) => {
            let s = "элевированный реинвок убит сигналом "@ + signed(n as int)
                + " (без кода выхода)"@;
            assert(s[5] == 'р');
        },
        Ending::NoPkexec => {
            assert("pkexec недоступен (polkit не установлен?)"@[0] == 'p');
            assert(refusal[0] == 'э');
        },
        Ending::Code(c) => {
            assert("pkexec не смог запустить реинвок (rc=127)"@[0] == 'p');
            assert(refusal[0] == 'э');
        },
    }
}

// ── What holds of all elevated runs ─────────────────────────────────────────

/// Whether the process is root goes by its effective user, the second number of the line, and
/// not by the real one before it; without a readable status it goes by what `id` prints, and
/// without either it is not root.
pub proof fn the_effective_user_counts(
    a: Seq<char>,
    b: Seq<char>,
    rest: Seq<char>,
    out: Seq<char>,
    id_out: Option<Seq<char>>,
)
    requires
        is_word(a),
        is_word(b),
        is_word(out),
    ensures
        effective_uid("Uid:\t"@ + a + "\t"@ + b + "\n"@ + rest) == Some(b),
        elevated(Some("Uid:\t"@ + a + "\t"@ + b + "\n"@ + rest), id_out) <==> b == "0"@,
        elevated(None, Some(out + "\n"@)) <==> out == "0"@,
        !elevated(None, None),
{
    reveal_strlit("Uid:\t");
    reveal_strlit("Uid:");
    reveal_strlit("\t");
    reveal_strlit("\n");
    let none = Seq::<char>::empty();
    let tab = seq!['\t'];
    let line = "Uid:\t"@ + a + "\t"@ + b;
    assert("Uid:\t"@ + a + "\t"@ + b + "\n"@ + rest =~= line + seq!['\n'] + rest);
    assert(!line.contains('\n')) by {
        if line.contains('\n') {
            let i = choose|i: int| 0 <= i < line.len() && line[i] == '\n';
            if 5 <= i < 5 + a.len() {
                assert(is_white(a[i - 5]));
            } else if i > 5 + a.len() {
                assert(is_white(b[i - 6 - a.len()]));
            }
        }
    }
    assert(line.last() == b.last());
    assert(!is_white(b[b.len() - 1]));
    line_breaks_end_lines(line, rest);
    assert(lines_of(line + seq!['\n'] + rest)[0] == line);
    assert(line.take(4) =~= "Uid:"@);
    let v = line.skip(4);
    assert(v =~= tab + a + tab + b);
    white_space_ends_words(tab, a, '\t', b);
    white_space_ends_words(none, b, '\t', none);
    assert(none + b =~= b);
    assert(words_of(v) =~= seq![a, b]);
    assert(!is_white(out[0]) && !is_white(out[out.len() - 1]));
    trimming_takes_off_the_ends(none, out, seq!['\n'], whites());
    assert(none + out + seq!['\n'] =~= out + "\n"@);
}

/// A text without white space that is not empty.
pub open spec fn is_word(w: Seq<char>) -> bool {
    w.len() > 0 && forall|i: int| 0 <= i < w.len() ==> !is_white(#[trigger] w[i])
}

/// The first line that begins with a key gives its value, whatever follows; other lines
/// before it are passed over.
pub proof fn the_first_line_of_a_key_counts(
    a: Seq<Seq<char>>,
    key: Seq<char>,
    v: Seq<char>,
    b: Seq<Seq<char>>,
)
    requires
        forall|i: int| 0 <= i < a.len() ==> !begins(#[trigger] a[i], key),
    ensures
        line_value(a + seq![key + v] + b, key) == Some(v),
        line_value(a, key) is None,
    decreases a.len(),
{
    let all = a + seq![key + v] + b;
    if a.len() == 0 {
        assert(all[0] == key + v);
        assert((key + v).take(key.len() as int) =~= key);
        assert((key + v).skip(key.len() as int) =~= v);
    } else {
        let t = a.skip(1);
        assert forall|i: int| 0 <= i < t.len() implies !begins(#[trigger] t[i], key) by {
            assert(t[i] == a[i + 1]);
        }
        the_first_line_of_a_key_counts(t, key, v, b);
        assert(all[0] == a[0]);
        assert(all.skip(1) =~= t + seq![key + v] + b);
    }
}

/// `pkexec` is looked for in every directory of the search path, in its order, and then in
/// the usual places; an empty entry of the path is none.
pub proof fn every_directory_is_searched(dirs: Seq<Seq<char>>, a: Seq<Seq<char>>, b: Seq<Seq<char>>)
    requires
        dirs.len() > 0,
        forall|i: int| 0 <= i < dirs.len() ==> !(#[trigger] dirs[i]).contains(':'),
    ensures
        pkexec_places(Some(joined(dirs, seq![':']))) == in_each(dirs) + pkexec_places(None),
        pkexec_places(None) == seq!["/usr/bin/pkexec"@, "/bin/pkexec"@, "/usr/local/bin/pkexec"@],
        in_each(a + b) == in_each(a) + in_each(b),
        a.len() == 1 ==> in_each(a) == (if a[0].len() == 0 {
            Seq::<Seq<char>>::empty()
        } else if a[0].last() == '/' {
            seq![a[0] + "pkexec"@]
        } else {
            seq![a[0] + "/"@ + "pkexec"@]
        }),
    decreases b.len(),
{
    joined_pieces_come_back(dirs, ':');
    let usual = seq!["/usr/bin/pkexec"@, "/bin/pkexec"@, "/usr/local/bin/pkexec"@];
    assert(pkexec_places(None) =~= usual);
    reveal_with_fuel(in_each, 2);
    if b.len() == 0 {
        assert(a + b =~= a);
        assert(in_each(a) + in_each(b) =~= in_each(a));
    } else {
        every_directory_is_searched(dirs, a, b.drop_last());
        assert((a + b).drop_last() =~= a + b.drop_last());
        assert((a + b).last() == b.last());
        assert(in_each(a + b) =~= in_each(a) + in_each(b));
    }
    if a.len() == 1 {
        assert(a.drop_last() =~= Seq::empty());
        let p = below(a[0], "pkexec"@);
        assert(Seq::<Seq<char>>::empty().push(p) =~= seq![p]);
    }
}

/// The code of the program comes through unchanged, whatever it is, except for the two codes
/// of `pkexec` itself; without a code there is an error, and each is logged: a refusal as a
/// warning, every other failure as an error.
pub proof fn codes_come_through(c: i32, s: i32, why: String)
    ensures
        c != 126 && c != 127 ==> elevation(Ending::Code(c)) == Ok::<i32, Seq<char>>(c)
            && elevation_level(Ending::Code(c)) is Info,
        c == 126 || c == 127 ==> elevation(Ending::Code(c)) is Err,
        elevation(Ending::NoPkexec) is Err && elevation_level(Ending::NoPkexec) is Error,
        elevation(Ending::NotStarted(why)) is Err && elevation_level(
            Ending::NotStarted(why),
        ) is Error,
        elevation(Ending::Signal(s)) is Err && elevation_level(Ending::Signal(s)) is Error,
        elevation_level(Ending::Code(126)) is Warn,
        elevation_level(Ending::Code(127)) is Error,
{
}

} // verus!
