//! Updates of the core: the latest release, and what of it replaces what is there.
//!
//! The lists of the user (`*-user.txt`) survive every update.
use vstd::prelude::*;

use crate::archive::{unpack, Wording};
use crate::pick::pick_first;
use crate::text::{
    ascii_lowered, cat, cat3, ends_with, head, parse_u64, position, same, starts_with, tail, trim,
};

verus! {

use crate::archive::{bytes_view, unpacked};
use crate::pick::first_where;
use crate::text::{
    at, begins, contains, ends, find, find_is_least, is_white, lemma_find_at, lemma_find_char,
    lowered, opt_text, parsed, texts, trimmed, trimming_takes_off_the_ends, whites,
};

/// Where the latest release of the strategies is described.
pub const API_LATEST: &'static str = "https://api.github.com/repos/Flowseal/zapret-discord-youtube/releases/latest";

/// Where the latest release of the engine is described.
pub const API_LATEST_NFQWS: &'static str = "https://api.github.com/repos/bol-van/zapret/releases/latest";

/// A release: its version, and where its archive is.
#[derive(Debug)]
pub struct LatestRelease {
    pub tag: String,
    pub zip_url: String,
}

// ── The description of a release ────────────────────────────────────────────

/// The text between `"key":"` and the next quotation mark.
pub open spec fn field(body: Seq<char>, key: Seq<char>) -> Option<Seq<char>> {
    let pat = "\""@ + key + "\":\""@;
    match find(body, pat) {
        None => None,
        Some(p) => {
            let rest = body.skip(p + pat.len());
            match find(rest, "\""@) {
                None => None,
                Some(e) => Some(rest.take(e)),
            }
        },
    }
}

/// The text value of a field.
pub fn json_str(body: &str, key: &str) -> (r: Option<String>)
    ensures
        opt_text(r) == field(body@, key@),
{
    let pat = cat3("\"", key, "\":\"");
    match position(body, pat.as_str()) {
        None => None,
        Some(p) => {
            let k: usize = pat.as_str().unicode_len();
            let rest = tail(body, p + k);
            match position(rest, "\"") {
                None => None,
                Some(e) => Some(head(rest, e).to_owned()),
            }
        },
    }
}

/// The value of a field is what stands between the quotation marks behind the first
/// mention of its name, whatever precedes and follows it.
pub proof fn fields_are_read(
    before: Seq<char>,
    key: Seq<char>,
    value: Seq<char>,
    behind: Seq<char>,
)
    requires
        !value.contains('"'),
        forall|j: int|
            0 <= j < before.len() ==> !at(
                before + "\""@ + key + "\":\""@ + value + "\""@ + behind,
                j,
                "\""@ + key + "\":\""@,
            ),
    ensures
        field(before + "\""@ + key + "\":\""@ + value + "\""@ + behind, key) == Some(value),
{
    reveal_strlit("\"");
    let pat = "\""@ + key + "\":\""@;
    let body = before + "\""@ + key + "\":\""@ + value + "\""@ + behind;
    let n = before.len() as int;
    assert(body.subrange(n, n + pat.len()) =~= pat);
    lemma_find_at(body, pat, n);
    let rest = body.skip(n + pat.len());
    assert("\""@ =~= seq!['"']);
    assert(rest =~= value + seq!['"'] + behind);
    lemma_find_char(value, '"', behind);
    assert(rest.take(value.len() as int) =~= value);
}

/// What stands before an address in the description of a release.
pub const URL_KEY: &'static str = "\"browser_download_url\":\"";

/// The first address that ends with `.zip`. An address without its closing quotation mark
/// ends the search.
pub open spec fn zip_address(body: Seq<char>) -> Option<Seq<char>>
    decreases body.len(),
    via zip_address_shrinks
{
    match find(body, URL_KEY@) {
        None => None,
        Some(p) => {
            let s = body.skip(p + URL_KEY@.len());
            match find(s, "\""@) {
                None => None,
                Some(e) => if ends(s.take(e), ".zip"@) {
                    Some(s.take(e))
                } else {
                    zip_address(s.skip(e))
                },
            }
        },
    }
}

#[via_fn]
proof fn zip_address_shrinks(body: Seq<char>) {
    reveal_strlit("\"browser_download_url\":\"");
    assert(URL_KEY@.len() > 0);
    find_is_least(body, URL_KEY@);
    match find(body, URL_KEY@) {
        None => {},
        Some(p) => {
            let s = body.skip(p + URL_KEY@.len());
            find_is_least(s, "\""@);
        },
    }
}

/// The first address that ends with `.zip`.
pub fn find_zip_url(body: &str) -> (r: Option<String>)
    ensures
        opt_text(r) == zip_address(body@),
{
    let mut rest = body;
    proof {
        reveal_strlit("\"browser_download_url\":\"");
    }
    let k: usize = URL_KEY.unicode_len();
    loop
        invariant
            k == URL_KEY@.len(),
            k > 0,
            zip_address(body@) == zip_address(rest@),
        decreases rest@.len(),
    {
        match position(rest, URL_KEY) {
            None => {
                return None;
            },
            Some(p) => {
                let s = tail(rest, p + k);
                match position(s, "\"") {
                    None => {
                        return None;
                    },
                    Some(e) => {
                        let url = head(s, e);
                        if ends_with(url, ".zip") {
                            return Some(url.to_owned());
                        }
                        rest = tail(s, e);
                    },
                }
            },
        }
    }
}

/// The address that is found is the first one that ends with `.zip`: one that does is found
/// whatever follows it, and one that does not is passed over.
pub proof fn the_first_archive_is_found(before: Seq<char>, url: Seq<char>, behind: Seq<char>)
    requires
        !url.contains('"'),
        forall|j: int|
            0 <= j < before.len() ==> !at(
                before + "\"browser_download_url\":\""@ + url + "\""@ + behind,
                j,
                "\"browser_download_url\":\""@,
            ),
    ensures
        ({
            let body = before + "\"browser_download_url\":\""@ + url + "\""@ + behind;
            &&& url.len() >= 4 && url.skip(url.len() - 4) == ".zip"@ ==> zip_address(body) == Some(
                url,
            )
            &&& url.len() < 4 || url.skip(url.len() - 4) != ".zip"@ ==> zip_address(body)
                == zip_address("\""@ + behind)
        }),
{
    reveal_strlit("\"");
    reveal_strlit(".zip");
    reveal_strlit("\"browser_download_url\":\"");
    let key = "\"browser_download_url\":\""@;
    let body = before + key + url + "\""@ + behind;
    let n = before.len() as int;
    assert(body.subrange(n, n + key.len()) =~= key);
    lemma_find_at(body, key, n);
    let s = body.skip(n + key.len());
    assert("\""@ =~= seq!['"']);
    assert(s =~= url + seq!['"'] + behind);
    lemma_find_char(url, '"', behind);
    assert(s.take(url.len() as int) =~= url);
    assert(s.skip(url.len() as int) =~= "\""@ + behind);
}

/// Without a mention of an address no archive is found, and what is found is an address
/// that ends with `.zip` and holds no quotation mark.
pub proof fn what_is_found_is_an_archive(body: Seq<char>)
    ensures
        !contains(body, "\"browser_download_url\":\""@) ==> zip_address(body) is None,
        zip_address(body) matches Some(url) ==> ends(url, ".zip"@) && !url.contains('"'),
    decreases body.len(),
{
    reveal_strlit("\"browser_download_url\":\"");
    reveal_strlit("\"");
    find_is_least(body, URL_KEY@);
    match find(body, URL_KEY@) {
        None => {},
        Some(p) => {
            let s = body.skip(p + URL_KEY@.len());
            find_is_least(s, "\""@);
            match find(s, "\""@) {
                None => {},
                Some(e) => {
                    let url = s.take(e);
                    if url.contains('"') {
                        let i = choose|i: int| 0 <= i < url.len() && url[i] == '"';
                        assert(s.subrange(i, i + 1) =~= "\""@);
                        assert(at(s, i, "\""@));
                    }
                    what_is_found_is_an_archive(s.skip(e));
                },
            }
        },
    }
}

/// A release as a mathematical value: its version and the address of its archive.
pub open spec fn release_view(r: Result<LatestRelease, String>) -> Result<
    (Seq<char>, Seq<char>),
    Seq<char>,
> {
    match r {
        Ok(l) => Ok((l.tag@, l.zip_url@)),
        Err(e) => Err(e@),
    }
}

/// The release in a description, or what the description lacks.
pub open spec fn release(
    body: Seq<char>,
    no_tag: Seq<char>,
    no_zip: Seq<char>,
) -> Result<(Seq<char>, Seq<char>), Seq<char>> {
    match field(body, "tag_name"@) {
        None => Err(no_tag),
        Some(tag) => match zip_address(body) {
            None => Err(no_zip),
            Some(url) => Ok((tag, url)),
        },
    }
}

/// The latest release of the strategies, from its description.
pub fn check_latest(body: &str) -> (r: Result<LatestRelease, String>)
    ensures
        release_view(r) == release(
            body@,
            "в ответе нет tag_name"@,
            "в релизе нет .zip-ассета"@,
        ),
{
    match json_str(body, "tag_name") {
        None => Err("в ответе нет tag_name".to_owned()),
        Some(tag) => match find_zip_url(body) {
            None => Err("в релизе нет .zip-ассета".to_owned()),
            Some(zip_url) => Ok(LatestRelease { tag, zip_url }),
        },
    }
}

/// The latest release of the engine, from its description.
pub fn check_latest_nfqws(body: &str) -> (r: Result<LatestRelease, String>)
    ensures
        release_view(r) == release(
            body@,
            "в ответе bol-van нет tag_name"@,
            "в релизе bol-van нет .zip-ассета"@,
        ),
{
    match json_str(body, "tag_name") {
        None => Err("в ответе bol-van нет tag_name".to_owned()),
        Some(tag) => match find_zip_url(body) {
            None => Err("в релизе bol-van нет .zip-ассета".to_owned()),
            Some(zip_url) => Ok(LatestRelease { tag, zip_url }),
        },
    }
}

/// The size of a download, from its header.
pub fn content_length(header: Option<&str>) -> (r: Option<u64>)
    ensures
        match r {
            Some(n) => header is Some && parsed(header->0@, u64::MAX as nat) == Some(n as nat),
            None => header is None || parsed(header->0@, u64::MAX as nat) is None,
        },
{
    match header {
        Some(h) => parse_u64(h),
        None => None,
    }
}

// ── Versions ────────────────────────────────────────────────────────────────

/// The version in a version file; nothing where it is blank.
pub open spec fn version_in(text: Seq<char>) -> Option<Seq<char>> {
    if trimmed(text).len() > 0 {
        Some(trimmed(text))
    } else {
        None
    }
}

/// The version is what the file holds without the white space round it, and a file that
/// holds nothing else has none.
pub proof fn versions_are_read(a: Seq<char>, v: Seq<char>, b: Seq<char>)
    requires
        forall|i: int| 0 <= i < a.len() ==> is_white(#[trigger] a[i]),
        forall|i: int| 0 <= i < b.len() ==> is_white(#[trigger] b[i]),
        v.len() > 0 ==> !is_white(v[0]) && !is_white(v.last()),
    ensures
        version_in(a + v + b) == (if v.len() > 0 {
            Some(v)
        } else {
            None
        }),
{
    trimming_takes_off_the_ends(a, v, b, whites());
}

/// The installed version of the strategies, from what `version.txt` holds.
pub fn local_version(text: Option<&str>) -> (r: Option<String>)
    ensures
        opt_text(r) == (match text {
            Some(t) => version_in(t@),
            None => None,
        }),
{
    match text {
        Some(t) => {
            let v = trim(t);
            if v.is_empty() {
                None
            } else {
                Some(v.to_owned())
            }
        },
        None => None,
    }
}

/// The installed version of the engine, from what `nfqws-version.txt` holds.
pub fn local_nfqws_version(text: Option<&str>) -> (r: Option<String>)
    ensures
        opt_text(r) == (match text {
            Some(t) => version_in(t@),
            None => None,
        }),
{
    local_version(text)
}

// ── Single files of a release ───────────────────────────────────────────────

/// One list of a release, for going back to the standard one. `bytes` is the archive.
pub fn fetch_default_list(bytes: Vec<u8>, file_name: &str) -> (r: Result<Vec<u8>, String>)
    ensures
        bytes_view(r) == unpacked(
            bytes@,
            "lists/"@ + file_name@,
            "zip: "@,
            "чтение из zip: "@,
            "в релизе нет lists/"@ + file_name@,
        ),
{
    let want = cat("lists/", file_name);
    let absent = cat("в релизе нет lists/", file_name);
    unpack(
        bytes,
        want.as_str(),
        &Wording { open: "zip: ", read: "чтение из zip: ", absent: absent.as_str() },
    )
}

/// The directory of a release that holds the engine for an architecture.
pub open spec fn platform_dir(arch: Seq<char>) -> Seq<char> {
    if arch == "x86_64"@ {
        "linux-x86_64"@
    } else if arch == "aarch64"@ {
        "linux-arm64"@
    } else if arch == "arm"@ {
        "linux-arm"@
    } else if arch == "powerpc"@ {
        "linux-ppc"@
    } else {
        "linux-x86_64"@
    }
}

/// The directory of a release that holds the engine for an architecture.
pub fn nfqws_platform_dir(arch: &str) -> (r: &'static str)
    ensures
        r@ == platform_dir(arch@),
{
    if same(arch, "x86_64") {
        "linux-x86_64"
    } else if same(arch, "aarch64") {
        "linux-arm64"
    } else if same(arch, "arm") {
        "linux-arm"
    } else if same(arch, "powerpc") {
        "linux-ppc"
    } else {
        "linux-x86_64"
    }
}

/// The engine of a release for an architecture. `bytes` is the archive.
pub fn extract_nfqws(bytes: Vec<u8>, arch: &str) -> (r: Result<Vec<u8>, String>)
    ensures
        ({
            let want = "binaries/"@ + platform_dir(arch@) + "/nfqws"@;
            bytes_view(r) == unpacked(
                bytes@,
                want,
                "zip nfqws: "@,
                "чтение nfqws из zip: "@,
                "в релизе bol-van нет "@ + want,
            )
        }),
{
    let want = cat3("binaries/", nfqws_platform_dir(arch), "/nfqws");
    let absent = cat("в релизе bol-van нет ", want.as_str());
    unpack(
        bytes,
        want.as_str(),
        &Wording { open: "zip nfqws: ", read: "чтение nfqws из zip: ", absent: absent.as_str() },
    )
}

// ── Replacing the core ──────────────────────────────────────────────────────

/// The root of the core in an unpacked release: the directory itself where it holds the
/// engine, else the first directory in it that does.
pub fn find_core_root(base: &str, base_holds: bool, dirs: &[String], hold: &[bool]) -> (r: Option<
    String,
>)
    ensures
        opt_text(r) == (if base_holds {
            Some(base@)
        } else {
            first_where(texts(dirs@), hold@)
        }),
{
    if base_holds {
        Some(base.to_owned())
    } else {
        pick_first(dirs, hold)
    }
}

/// What becomes of an entry of a release.
#[derive(Clone, Copy, Debug, PartialEq, Eq, Structural)]
pub enum CopyAction {
    /// A directory: its entries are next.
    Descend,
    /// The file of the user stays.
    Keep,
    /// Of no use on this system.
    Leave,
    /// It is copied.
    Copy,
}

/// A part of the release that only Windows can use: programs, libraries and the driver.
pub open spec fn windows_artifact(small: Seq<char>) -> bool {
    ends(small, ".exe"@) || ends(small, ".dll"@) || ends(small, ".sys"@) || begins(
        small,
        "windivert"@,
    )
}

/// A list of the user.
pub open spec fn is_user_list(name: Seq<char>) -> bool {
    ends(lowered(name), "-user.txt"@)
}

/// Whether a file, by its name in small letters, is of use to Windows only.
pub fn is_windows_artifact(lower_name: &str) -> (r: bool)
    ensures
        r == windows_artifact(lower_name@),
{
    ends_with(lower_name, ".exe") || ends_with(lower_name, ".dll") || ends_with(lower_name, ".sys")
        || starts_with(lower_name, "windivert")
}

/// What becomes of an entry of a release: a list of the user that is there already stays,
/// and what only Windows can use is left out elsewhere (`windows` says which it is).
pub open spec fn fate(name: Seq<char>, is_dir: bool, there: bool, windows: bool) -> CopyAction {
    if is_dir {
        CopyAction::Descend
    } else if is_user_list(name) && there {
        CopyAction::Keep
    } else if !windows && windows_artifact(lowered(name)) {
        CopyAction::Leave
    } else {
        CopyAction::Copy
    }
}

/// What becomes of an entry of a release. `there` says whether a file of that name is
/// there already.
pub fn copy_over(name: &str, is_dir: bool, there: bool, windows: bool) -> (r: CopyAction)
    ensures
        r == fate(name@, is_dir, there, windows),
{
    if is_dir {
        return CopyAction::Descend;
    }
    let small = ascii_lowered(name);
    if ends_with(small.as_str(), "-user.txt") && there {
        CopyAction::Keep
    } else if !windows && is_windows_artifact(small.as_str()) {
        CopyAction::Leave
    } else {
        CopyAction::Copy
    }
}

/// No update overwrites a list of the user; and every other file of a release that this
/// system can use is copied.
pub proof fn user_lists_survive(name: Seq<char>, there: bool, windows: bool)
    ensures
        is_user_list(name) && there ==> fate(name, false, there, windows) == CopyAction::Keep,
        fate(name, false, there, windows) == CopyAction::Copy <==> !(is_user_list(name) && there)
            && (windows || !windows_artifact(lowered(name))),
{
}

/// A file whose name ends with `-user.txt`, in any letter case, is never overwritten, on
/// either system; no other file is spared, and where the list is not there yet it is
/// copied.
pub proof fn lists_of_the_user_are_kept(p: Seq<char>, name: Seq<char>, windows: bool)
    ensures
        fate(p + "-user.txt"@, false, true, windows) == CopyAction::Keep,
        fate(p + "-USER.TXT"@, false, true, windows) == CopyAction::Keep,
        fate(p + "-user.txt"@, false, false, true) == CopyAction::Copy,
        name.len() < 9 || lowered(name).skip(name.len() - 9) != "-user.txt"@ ==> fate(
            name,
            false,
            true,
            windows,
        ) != CopyAction::Keep,
        fate(name, false, false, windows) != CopyAction::Keep,
{
    reveal_strlit("-user.txt");
    reveal_strlit("-USER.TXT");
    let u = "-user.txt"@;
    let c = "-USER.TXT"@;
    let a = lowered(p + u);
    let b = lowered(p + c);
    assert(a.skip(a.len() - 9) =~= u);
    assert(b.skip(b.len() - 9) =~= u);
}

/// What only Windows can use is copied there and left out elsewhere, by its ending or by
/// the name of the driver at its beginning, in any letter case; every directory is gone
/// through; and nothing else is left out.
pub proof fn only_windows_gets_its_files(p: Seq<char>, name: Seq<char>, there: bool, windows: bool)
    ensures
        ({
            let given = if windows {
                CopyAction::Copy
            } else {
                CopyAction::Leave
            };
            &&& fate(p + ".exe"@, false, there, windows) == given
            &&& fate(p + ".dll"@, false, there, windows) == given
            &&& fate(p + ".sys"@, false, there, windows) == given
            &&& fate("WinDivert"@ + p, false, false, windows) == given
        }),
        fate(name, true, there, windows) == CopyAction::Descend,
        fate(name, false, there, true) != CopyAction::Leave,
        !ends(lowered(name), ".exe"@) && !ends(lowered(name), ".dll"@) && !ends(
            lowered(name),
            ".sys"@,
        ) && !begins(lowered(name), "windivert"@) ==> fate(name, false, false, windows)
            == CopyAction::Copy,
{
    reveal_strlit("-user.txt");
    reveal_strlit(".exe");
    reveal_strlit(".dll");
    reveal_strlit(".sys");
    reveal_strlit("WinDivert");
    reveal_strlit("windivert");
    lemma_ending(p, ".exe"@);
    lemma_ending(p, ".dll"@);
    lemma_ending(p, ".sys"@);
    assert(lowered("WinDivert"@ + p).take(9) =~= "windivert"@);
}

proof fn lemma_ending(p: Seq<char>, e: Seq<char>)
    requires
        e.len() == 4,
        e[3] != 't',
        forall|i: int| 0 <= i < 4 ==> !('A' <= #[trigger] e[i] <= 'Z'),
    ensures
        ends(lowered(p + e), e),
        !ends(lowered(p + e), "-user.txt"@),
{
    reveal_strlit("-user.txt");
    let s = lowered(p + e);
    assert(s.skip(s.len() - 4) =~= e);
    if ends(s, "-user.txt"@) {
        assert(s.skip(s.len() - 9)[8] == s.last());
        assert(s.last() == e[3]);
    }
}

/// The letter case of a name does not matter to what becomes of it.
pub proof fn letter_case_does_not_matter(
    a: Seq<char>,
    b: Seq<char>,
    is_dir: bool,
    there: bool,
    windows: bool,
)
    requires
        lowered(a) == lowered(b),
    ensures
        fate(a, is_dir, there, windows) == fate(b, is_dir, there, windows),
{
}

/// How often a copy is tried.
pub const COPY_TRIES: u64 = 6;

/// What follows the copy number `attempt` that failed: the pause in milliseconds, and
/// whether it is tried again.
pub open spec fn retry(attempt: int) -> (int, bool) {
    (400 * (attempt + 1), attempt + 1 < COPY_TRIES)
}

/// A copy is tried six times, and each pause is 400 ms longer than the one before it.
pub proof fn pauses_grow(attempt: int)
    requires
        0 <= attempt < 6,
    ensures
        retry(attempt).1 <==> attempt != 5,
        retry(0).0 == 400,
        retry(attempt + 1).0 == retry(attempt).0 + 400,
{
}

/// What follows a copy that failed: the pause in milliseconds, and whether it is tried
/// again. The file may still be held by a process that is about to end.
pub fn copy_with_retry(attempt: u64) -> (r: (u64, bool))
    requires
        attempt < COPY_TRIES,
    ensures
        r.0 == 400 * (attempt + 1),
        r.1 == (attempt + 1 < COPY_TRIES),
        (r.0 as int, r.1) == retry(attempt as int),
{
    (400 * (attempt + 1), attempt + 1 < COPY_TRIES)
}

/// A release needs a version and an archive: with both it is known by exactly these, and
/// what is missing is told, a missing version first.
pub proof fn a_release_has_a_version_and_an_archive(
    body: Seq<char>,
    no_tag: Seq<char>,
    no_zip: Seq<char>,
)
    ensures
        ({
            let r = release(body, no_tag, no_zip);
            &&& r is Ok <==> field(body, "tag_name"@) is Some && zip_address(body) is Some
            &&& r matches Ok(p) ==> field(body, "tag_name"@) == Some(p.0) && zip_address(body)
                == Some(p.1)
            &&& field(body, "tag_name"@) is None ==> r == Err::<(Seq<char>, Seq<char>), Seq<char>>(
                no_tag,
            )
            &&& field(body, "tag_name"@) is Some && zip_address(body) is None ==> r == Err::<
                (Seq<char>, Seq<char>),
                Seq<char>,
            >(no_zip)
        }),
{
}

/// Each architecture that the engine is built for has a directory of its own, and every
/// other one gets that of `x86_64`.
pub proof fn architectures_have_their_directories(arch: Seq<char>)
    ensures
        platform_dir("x86_64"@) == "linux-x86_64"@,
        platform_dir("aarch64"@) == "linux-arm64"@,
        platform_dir("arm"@) == "linux-arm"@,
        platform_dir("powerpc"@) == "linux-ppc"@,
        arch != "aarch64"@ && arch != "arm"@ && arch != "powerpc"@ ==> platform_dir(arch)
            == platform_dir("x86_64"@),
        platform_dir(arch) == platform_dir("aarch64"@) <==> arch == "aarch64"@,
        platform_dir(arch) == platform_dir("arm"@) <==> arch == "arm"@,
        platform_dir(arch) == platform_dir("powerpc"@) <==> arch == "powerpc"@,
{
    reveal_strlit("x86_64");
    reveal_strlit("aarch64");
    reveal_strlit("arm");
    reveal_strlit("powerpc");
    reveal_strlit("linux-x86_64");
    reveal_strlit("linux-arm64");
    reveal_strlit("linux-arm");
    reveal_strlit("linux-ppc");
    assert("x86_64"@.len() == 6 && "aarch64"@.len() == 7 && "arm"@.len() == 3 && "powerpc"@.len()
        == 7);
    assert("aarch64"@[0] == 'a' && "powerpc"@[0] == 'p');
    assert("linux-x86_64"@.len() == 12 && "linux-arm64"@.len() == 11 && "linux-arm"@.len() == 9
        && "linux-ppc"@.len() == 9);
    assert("linux-arm"@[6] == 'a' && "linux-ppc"@[6] == 'p');
}

} // verus!
