//! Files in a zip archive, found by their names.
//!
//! The archive is read by the crate `zip`. What it says of given bytes has names here:
//! whether they are an archive, how many entries it has, the header of each entry, and
//! what an entry unpacks to. The search is this library's own.
use vstd::prelude::*;

use std::io::Read;

use crate::text::{cat, ends_with, replace, same};

verus! {

use crate::text::{ends, replaced, replacing_a_char_maps_it};

/// `zip::ZipArchive`: an opened archive.
#[verifier::external_type_specification]
#[verifier::external_body]
#[verifier::reject_recursive_types(R)]
pub struct ExZipArchive<R>(zip::ZipArchive<R>);

/// `std::io::Cursor`: bytes in memory as something to read from.
#[verifier::external_type_specification]
#[verifier::external_body]
#[verifier::reject_recursive_types(T)]
pub struct ExCursor<T>(std::io::Cursor<T>);

/// The bytes that an archive was opened from.
pub uninterp spec fn zip_source(a: zip::ZipArchive<std::io::Cursor<Vec<u8>>>) -> Seq<u8>;

/// Why `ZipArchive::new` refuses bytes, as its error prints; nothing where it accepts them.
pub uninterp spec fn zip_refusal(bytes: Seq<u8>) -> Option<Seq<char>>;

/// The number of entries that `ZipArchive::len` gives for an archive opened from `bytes`.
pub uninterp spec fn zip_count(bytes: Seq<u8>) -> nat;

/// What `ZipArchive::by_index` says of an entry of an archive opened from `bytes`: its name
/// and whether it is a file, or the error as it prints.
pub uninterp spec fn zip_header(bytes: Seq<u8>, i: nat) -> Result<(Seq<char>, bool), Seq<char>>;

/// What an entry of an archive opened from `bytes` unpacks to, or the error as it prints.
pub uninterp spec fn zip_data(bytes: Seq<u8>, i: nat) -> Result<Seq<u8>, Seq<char>>;

/// `zip::ZipArchive::new` on bytes in memory. The contract claims that the bytes alone
/// decide whether it succeeds and which error it gives, and that the archive keeps the
/// bytes it was opened from.
#[verifier::external_body]
fn open_zip(bytes: Vec<u8>) -> (r: Result<zip::ZipArchive<std::io::Cursor<Vec<u8>>>, String>)
    ensures
        match r {
            Ok(a) => zip_refusal(bytes@) is None && zip_source(a) == bytes@,
            Err(e) => zip_refusal(bytes@) == Some(e@),
        },
{
    zip::ZipArchive::new(std::io::Cursor::new(bytes)).map_err(|e| e.to_string())
}

/// `zip::ZipArchive::len`. The contract claims that the number of entries depends on the
/// bytes of the archive alone.
#[verifier::external_body]
fn zip_len(a: &zip::ZipArchive<std::io::Cursor<Vec<u8>>>) -> (r: usize)
    ensures
        r == zip_count(zip_source(*a)),
{
    a.len()
}

/// `zip::ZipArchive::by_index`, with the `name` and `is_file` of the entry that it gives.
/// The contract claims that both depend on the bytes of the archive and the number of the
/// entry alone, and that the archive stays the same.
#[verifier::external_body]
fn read_header(a: &mut zip::ZipArchive<std::io::Cursor<Vec<u8>>>, i: usize) -> (r: Result<
    (String, bool),
    String,
>)
    ensures
        zip_source(*final(a)) == zip_source(*old(a)),
        match r {
            Ok(h) => zip_header(zip_source(*old(a)), i as nat) == Ok::<
                (Seq<char>, bool),
                Seq<char>,
            >((h.0@, h.1)),
            Err(e) => zip_header(zip_source(*old(a)), i as nat) == Err::<
                (Seq<char>, bool),
                Seq<char>,
            >(e@),
        },
{
    let entry = a.by_index(i).map_err(|e| e.to_string())?;
    Ok((entry.name().to_owned(), entry.is_file()))
}

/// `zip::ZipArchive::by_index` and `Read::read_to_end` of the entry that it gives. The
/// contract claims that the bytes of the archive and the number of the entry alone decide
/// what comes out, and that the archive stays the same.
#[verifier::external_body]
fn read_data(a: &mut zip::ZipArchive<std::io::Cursor<Vec<u8>>>, i: usize) -> (r: Result<
    Vec<u8>,
    String,
>)
    ensures
        zip_source(*final(a)) == zip_source(*old(a)),
        match r {
            Ok(d) => zip_data(zip_source(*old(a)), i as nat) == Ok::<Seq<u8>, Seq<char>>(d@),
            Err(e) => zip_data(zip_source(*old(a)), i as nat) == Err::<Seq<u8>, Seq<char>>(e@),
        },
{
    let mut entry = a.by_index(i).map_err(|e| e.to_string())?;
    let mut data = Vec::new();
    entry.read_to_end(&mut data).map_err(|e| e.to_string())?;
    Ok(data)
}

// ── The search ──────────────────────────────────────────────────────────────

/// What is known of an entry: its name and whether it is a file, or why it cannot be read.
pub type Header = Result<(String, bool), String>;

/// What is known of an entry, as a mathematical value.
pub open spec fn header_view(h: Header) -> Result<(Seq<char>, bool), Seq<char>> {
    match h {
        Ok(p) => Ok((p.0@, p.1)),
        Err(e) => Err(e@),
    }
}

/// What is known of each entry, as mathematical values.
pub open spec fn headers_view(hs: Seq<Header>) -> Seq<Result<(Seq<char>, bool), Seq<char>>> {
    Seq::new(hs.len(), |i: int| header_view(hs[i]))
}

/// Whether an entry is the wanted file: with `/` for `\`, its name is the wanted one or
/// ends with it below some directory.
pub open spec fn is_wanted(name: Seq<char>, want: Seq<char>) -> bool {
    let n = replaced(name, "\\"@, "/"@);
    n == want || ends(n, "/"@ + want)
}

/// Whether an entry is the wanted file.
pub fn wanted(name: &str, want: &str) -> (r: bool)
    ensures
        r == is_wanted(name@, want@),
{
    proof {
        reveal_strlit("\\");
    }
    let n = replace(name, "\\", "/");
    same(n.as_str(), want) || ends_with(n.as_str(), cat("/", want).as_str())
}

/// The number of the first entry that is the wanted file. An entry that cannot be read
/// before it ends the search with an error.
pub open spec fn search(
    hs: Seq<Result<(Seq<char>, bool), Seq<char>>>,
    want: Seq<char>,
) -> Result<Option<int>, Seq<char>>
    decreases hs.len(),
{
    if hs.len() == 0 {
        Ok(None)
    } else {
        match hs[0] {
            Err(e) => Err("zip entry: "@ + e),
            Ok(h) => if h.1 && is_wanted(h.0, want) {
                Ok(Some(0))
            } else {
                match search(hs.skip(1), want) {
                    Ok(Some(i)) => Ok(Some(i + 1)),
                    other => other,
                }
            },
        }
    }
}

/// The number of the first entry that is the wanted file.
pub fn find_entry(headers: &[Header], want: &str) -> (r: Result<Option<usize>, String>)
    ensures
        match r {
            Ok(Some(i)) => search(headers_view(headers@), want@) == Ok::<Option<int>, Seq<char>>(
                Some(i as int),
            ) && i < headers@.len(),
            Ok(None) => search(headers_view(headers@), want@) == Ok::<Option<int>, Seq<char>>(
                None,
            ),
            Err(e) => search(headers_view(headers@), want@) == Err::<Option<int>, Seq<char>>(e@),
        },
{
    let ghost hs = headers_view(headers@);
    let mut i: usize = 0;
    assert(hs.skip(0) =~= hs);
    while i < headers.len()
        invariant
            i <= headers@.len(),
            hs == headers_view(headers@),
            search(hs, want@) == (match search(hs.skip(i as int), want@) {
                Ok(Some(k)) => Ok(Some(k + i)),
                other => other,
            }),
        decreases headers@.len() - i,
    {
        assert(hs.skip(i as int)[0] == header_view(headers@[i as int]));
        assert(hs.skip(i as int).skip(1) =~= hs.skip(i + 1));
        match &headers[i] {
            Err(e) => {
                return Err(cat("zip entry: ", e.as_str()));
            },
            Ok(h) => {
                if h.1 && wanted(h.0.as_str(), want) {
                    return Ok(Some(i));
                }
            },
        }
        i += 1;
    }
    Ok(None)
}

/// The search gives the first entry that is the wanted file, and gives none only where
/// there is none.
pub proof fn search_gives_the_first(
    hs: Seq<Result<(Seq<char>, bool), Seq<char>>>,
    want: Seq<char>,
)
    ensures
        search(hs, want) matches Ok(Some(k)) ==> 0 <= k < hs.len() && (hs[k] matches Ok(h) && h.1
            && is_wanted(h.0, want)) && forall|i: int|
            0 <= i < k ==> (#[trigger] hs[i] matches Ok(h) && !(h.1 && is_wanted(h.0, want))),
        search(hs, want) matches Ok(None) ==> forall|i: int|
            0 <= i < hs.len() ==> (#[trigger] hs[i] matches Ok(h) && !(h.1 && is_wanted(
                h.0,
                want,
            ))),
    decreases hs.len(),
{
    if hs.len() > 0 && hs[0] is Ok && !((hs[0]->Ok_0).1 && is_wanted((hs[0]->Ok_0).0, want)) {
        let t = hs.skip(1);
        search_gives_the_first(t, want);
        assert forall|i: int| 1 <= i < hs.len() implies #[trigger] hs[i] == t[i - 1] by {}
    }
}

/// The headers of an archive opened from `bytes`.
pub open spec fn headers_of(bytes: Seq<u8>) -> Seq<Result<(Seq<char>, bool), Seq<char>>> {
    Seq::new(zip_count(bytes), |i: int| zip_header(bytes, i as nat))
}

/// The words of the errors of an unpacking.
pub struct Wording<'a> {
    /// Before the error of an archive that cannot be opened.
    pub open: &'a str,
    /// Before the error of an entry that cannot be unpacked.
    pub read: &'a str,
    /// The error of an archive without the wanted file.
    pub absent: &'a str,
}

/// The wanted file of an archive, or why there is none.
pub open spec fn unpacked(
    bytes: Seq<u8>,
    want: Seq<char>,
    open_words: Seq<char>,
    read_words: Seq<char>,
    absent: Seq<char>,
) -> Result<Seq<u8>, Seq<char>> {
    match zip_refusal(bytes) {
        Some(e) => Err(open_words + e),
        None => match search(headers_of(bytes), want) {
            Err(e) => Err(e),
            Ok(None) => Err(absent),
            Ok(Some(i)) => match zip_data(bytes, i as nat) {
                Ok(d) => Ok(d),
                Err(e) => Err(read_words + e),
            },
        },
    }
}

/// The bytes of an outcome.
pub open spec fn bytes_view(r: Result<Vec<u8>, String>) -> Result<Seq<u8>, Seq<char>> {
    match r {
        Ok(d) => Ok(d@),
        Err(e) => Err(e@),
    }
}

/// Unpacks the wanted file of an archive.
pub fn unpack(bytes: Vec<u8>, want: &str, words: &Wording) -> (r: Result<Vec<u8>, String>)
    ensures
        bytes_view(r) == unpacked(bytes@, want@, words.open@, words.read@, words.absent@),
{
    match open_zip(bytes) {
        Err(e) => Err(cat(words.open, e.as_str())),
        Ok(archive) => {
            let mut a = archive;
            let n: usize = zip_len(&a);
            let mut headers: Vec<Header> = Vec::new();
            let mut i: usize = 0;
            while i < n
                invariant
                    i <= n,
                    n == zip_count(bytes@),
                    zip_source(a) == bytes@,
                    headers@.len() == i,
                    forall|k: int|
                        0 <= k < i ==> header_view(#[trigger] headers@[k]) == zip_header(
                            bytes@,
                            k as nat,
                        ),
                decreases n - i,
            {
                headers.push(read_header(&mut a, i));
                i += 1;
            }
            assert(headers_view(headers@) =~= headers_of(bytes@));
            match find_entry(&headers, want) {
                Err(e) => Err(e),
                Ok(None) => Err(words.absent.to_owned()),
                Ok(Some(k)) => match read_data(&mut a, k) {
                    Ok(d) => Ok(d),
                    Err(e) => Err(cat(words.read, e.as_str())),
                },
            }
        },
    }
}

/// An entry is wanted under its own name and below any directory, whichever way the path
/// separates its parts; a name that only ends with the same letters is not wanted.
pub proof fn entries_are_wanted_below_any_directory(p: Seq<char>, want: Seq<char>)
    requires
        !want.contains('\\'),
    ensures
        is_wanted(want, want),
        is_wanted(p + "/"@ + want, want),
        is_wanted(p + "\\"@ + want, want),
        p.len() > 0 && p.last() != '/' && p.last() != '\\' ==> !is_wanted(p + want, want),
{
    reveal_strlit("\\");
    reveal_strlit("/");
    assert("\\"@ =~= seq!['\\']);
    assert("/"@ =~= seq!['/']);
    assert forall|i: int| 0 <= i < want.len() implies #[trigger] want[i] != '\\' by {}
    let w = replaced(want, "\\"@, "/"@);
    replacing_a_char_maps_it(want, '\\', '/');
    assert(w =~= want);
    let a = p + "/"@ + want;
    let b = p + "\\"@ + want;
    let c = p + want;
    replacing_a_char_maps_it(a, '\\', '/');
    replacing_a_char_maps_it(b, '\\', '/');
    replacing_a_char_maps_it(c, '\\', '/');
    let tail = "/"@ + want;
    let x = replaced(a, "\\"@, "/"@);
    let y = replaced(b, "\\"@, "/"@);
    let z = replaced(c, "\\"@, "/"@);
    assert forall|i: int| 0 <= i < want.len() implies x[p.len() + 1 + i] == #[trigger] want[i] && y[
    p.len() + 1 + i] == want[i] by {
        assert(a[p.len() + 1 + i] == want[i] && b[p.len() + 1 + i] == want[i]);
    }
    assert(x.skip(p.len() as int) =~= tail);
    assert(y.skip(p.len() as int) =~= tail);
    if p.len() > 0 && ends(z, tail) {
        assert(z.skip(z.len() - tail.len())[0] == z[p.len() - 1]);
        assert(c[p.len() - 1] == p.last());
    }
}

/// A file that is there is found: where the entries up to it can be read and none before it
/// is wanted, the search ends with it, whatever follows. An entry that cannot be read
/// before any wanted one ends the search with an error.
pub proof fn what_is_there_is_found(
    hs: Seq<Result<(Seq<char>, bool), Seq<char>>>,
    want: Seq<char>,
    k: int,
)
    requires
        0 <= k < hs.len(),
        forall|i: int|
            0 <= i < k ==> (#[trigger] hs[i] matches Ok(h) && !(h.1 && is_wanted(h.0, want))),
    ensures
        (hs[k] matches Ok(h) && h.1 && is_wanted(h.0, want)) ==> search(hs, want) == Ok::<
            Option<int>,
            Seq<char>,
        >(Some(k)),
        hs[k] is Err ==> search(hs, want) is Err,
    decreases k,
{
    if k > 0 {
        let t = hs.skip(1);
        assert(hs[0] is Ok);
        assert forall|i: int| 0 <= i < k - 1 implies (#[trigger] t[i] matches Ok(h) && !(h.1
            && is_wanted(h.0, want))) by {
            assert(t[i] == hs[i + 1]);
        }
        what_is_there_is_found(t, want, k - 1);
        assert(t[k - 1] == hs[k]);
    }
}

/// What is unpacked is the content of the first wanted file of the archive, unchanged; an
/// archive without one gives the error for that, and bytes that are no archive give theirs.
pub proof fn the_wanted_file_is_unpacked(
    bytes: Seq<u8>,
    want: Seq<char>,
    open_words: Seq<char>,
    read_words: Seq<char>,
    absent: Seq<char>,
    k: int,
    data: Seq<u8>,
)
    ensures
        zip_refusal(bytes) is None && 0 <= k < zip_count(bytes) && (zip_header(bytes, k as nat)
            matches Ok(h) && h.1 && is_wanted(h.0, want)) && (forall|i: int|
            0 <= i < k ==> (#[trigger] zip_header(bytes, i as nat) matches Ok(h) && !(h.1
                && is_wanted(h.0, want)))) && zip_data(bytes, k as nat) == Ok::<
            Seq<u8>,
            Seq<char>,
        >(data) ==> unpacked(bytes, want, open_words, read_words, absent) == Ok::<
            Seq<u8>,
            Seq<char>,
        >(data),
        zip_refusal(bytes) is None && (forall|i: int|
            0 <= i < zip_count(bytes) ==> (#[trigger] zip_header(bytes, i as nat) matches Ok(h)
                && !(h.1 && is_wanted(h.0, want)))) ==> unpacked(
            bytes,
            want,
            open_words,
            read_words,
            absent,
        ) == Err::<Seq<u8>, Seq<char>>(absent),
        zip_refusal(bytes) matches Some(e) ==> unpacked(
            bytes,
            want,
            open_words,
            read_words,
            absent,
        ) == Err::<Seq<u8>, Seq<char>>(open_words + e),
{
    let hs = headers_of(bytes);
    assert forall|i: int| 0 <= i < hs.len() implies #[trigger] hs[i] == zip_header(
        bytes,
        i as nat,
    ) by {}
    search_gives_the_first(hs, want);
    if 0 <= k < hs.len() && forall|i: int|
        0 <= i < k ==> (#[trigger] hs[i] matches Ok(h) && !(h.1 && is_wanted(h.0, want))) {
        what_is_there_is_found(hs, want, k);
    }
    lemma_nothing_wanted(hs, want);
}

proof fn lemma_nothing_wanted(
    hs: Seq<Result<(Seq<char>, bool), Seq<char>>>,
    want: Seq<char>,
)
    ensures
        (forall|i: int|
            0 <= i < hs.len() ==> (#[trigger] hs[i] matches Ok(h) && !(h.1 && is_wanted(
                h.0,
                want,
            )))) ==> search(hs, want) == Ok::<Option<int>, Seq<char>>(None),
    decreases hs.len(),
{
    if hs.len() > 0 {
        let t = hs.skip(1);
        lemma_nothing_wanted(t, want);
        assert forall|i: int| 0 <= i < t.len() implies #[trigger] t[i] == hs[i + 1] by {}
    }
}

} // verus!
