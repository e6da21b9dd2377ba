//! The directories and the identity of whoever called the program.
//!
//! Under `sudo` or `pkexec` the home directory of the process is that of root. The core,
//! the configuration and the log belong to whoever called, so their places are worked out
//! from that user.
use vstd::prelude::*;

use super::elevate::find_line;
use super::nft::Backend;
use crate::script::Invocation;
use crate::text::{
    cat, decimal_text, join_path, lines, parse_u32, same, split_on, starts_with, strings, trim,
    trim_char,
};

verus! {

use super::elevate::line_value;
use super::nft::{ipt, label_of};
use crate::script::InvocationView;
use crate::text::{
    begins, below, decimal, decimal_reads_back, joined, joined_pieces_come_back,
    line_breaks_end_lines, lines_of, only, opt_str, opt_text, parsed, split, texts, trim_by,
    trimmed, trimming_takes_off_the_ends,
};

// ── The calling user ────────────────────────────────────────────────────────

/// A field of the first line that `getent passwd` has printed (0 is the name, 3 the
/// group, 5 the home directory). An empty field is none.
pub open spec fn passwd_value(out: Seq<char>, idx: int) -> Option<Seq<char>> {
    let ls = lines_of(out);
    if ls.len() == 0 {
        None
    } else {
        let fields = split(ls[0], ':');
        if idx < fields.len() && fields[idx].len() > 0 {
            Some(fields[idx])
        } else {
            None
        }
    }
}

/// A field of the first line that `getent passwd` has printed; nothing where it failed.
pub fn passwd_field(out: Option<&str>, idx: usize) -> (r: Option<String>)
    ensures
        opt_text(r) == (match out {
            Some(o) => passwd_value(o@, idx as int),
            None => None,
        }),
{
    match out {
        None => None,
        Some(o) => {
            let ls = lines(o);
            assert(texts(ls@).len() == ls@.len());
            if ls.len() == 0 {
                return None;
            }
            assert(texts(ls@)[0] == ls@[0]@);
            let fields = split_on(ls[0].as_str(), ':');
            assert(texts(fields@).len() == fields@.len());
            if idx < fields.len() {
                assert(texts(fields@)[idx as int] == fields@[idx as int]@);
                if !fields[idx].as_str().is_empty() {
                    return Some(fields[idx].clone());
                }
            }
            None
        },
    }
}

/// What is known of whoever called: the variables of the environment, what the user
/// database says of them, and whether the directory that is tried is there.
pub struct Caller<'a> {
    /// The home directory that the database gives for `PKEXEC_UID`.
    pub pkexec_home: Option<&'a str>,
    /// `SUDO_USER`.
    pub sudo_user: Option<&'a str>,
    /// The home directory that the database gives for it.
    pub sudo_home: Option<&'a str>,
    /// Whether the directory that is tried for it is there.
    pub sudo_guess: bool,
    /// `HOME`.
    pub home: Option<&'a str>,
}

/// The directory that is tried for a user by name: `/home/<user>`, or the text itself where
/// it is absolute.
pub open spec fn home_guess(user: Seq<char>) -> Seq<char> {
    if begins(user, "/"@) {
        user
    } else {
        below("/home"@, user)
    }
}

/// The directory that is tried for a user by name.
pub fn guessed_home(user: &str) -> (r: String)
    ensures
        r@ == home_guess(user@),
{
    if starts_with(user, "/") {
        user.to_owned()
    } else {
        join_path("/home", user)
    }
}

/// The home directory of a user by name: from the database, else the directory that is
/// tried, where it is there (`guess`).
pub open spec fn user_home(user: Seq<char>, listed: Option<Seq<char>>, guess: bool) -> Option<
    Seq<char>,
> {
    match listed {
        Some(h) => Some(h),
        None => if guess {
            Some(home_guess(user))
        } else {
            None
        },
    }
}

/// The home directory of a user by name.
pub fn home_of_user(user: &str, listed: Option<&str>, guess: bool) -> (r: Option<String>)
    ensures
        opt_text(r) == user_home(user@, opt_str(listed), guess),
{
    match listed {
        Some(h) => Some(h.to_owned()),
        None => if guess {
            Some(guessed_home(user))
        } else {
            None
        },
    }
}

/// The home directory of whoever called: under `pkexec` that of the calling user, under
/// `sudo` likewise unless it is root, else that of the process.
pub open spec fn caller_home(c: Caller) -> Option<Seq<char>> {
    let by_sudo = match c.sudo_user {
        Some(u) => if u@.len() > 0 && u@ != "root"@ {
            user_home(u@, opt_str(c.sudo_home), c.sudo_guess)
        } else {
            None
        },
        None => None,
    };
    match c.pkexec_home {
        Some(h) => Some(h@),
        None => match by_sudo {
            Some(h) => Some(h),
            None => opt_str(c.home),
        },
    }
}

/// The home directory of whoever called.
pub fn invoking_user_home(c: &Caller) -> (r: Option<String>)
    ensures
        opt_text(r) == caller_home(*c),
{
    match c.pkexec_home {
        Some(h) => {
            return Some(h.to_owned());
        },
        None => {},
    }
    match c.sudo_user {
        Some(u) => {
            if !u.is_empty() && !same(u, "root") {
                match home_of_user(u, c.sudo_home, c.sudo_guess) {
                    Some(h) => {
                        return Some(h);
                    },
                    None => {},
                }
            }
        },
        None => {},
    }
    match c.home {
        Some(h) => Some(h.to_owned()),
        None => None,
    }
}

/// The user and the group that `sudo` names, unless it is root.
pub open spec fn sudo_pair(uid: Option<Seq<char>>, gid: Option<Seq<char>>) -> Option<(nat, nat)> {
    match (uid, gid) {
        (Some(u), Some(g)) => match (parsed(u, u32::MAX as nat), parsed(g, u32::MAX as nat)) {
            (Some(a), Some(b)) => if a != 0 {
                Some((a, b))
            } else {
                None
            },
            _ => None,
        },
        _ => None,
    }
}

/// The user that `pkexec` names, unless it is root, with the group that the database gives
/// for it (that of the same number where it gives none).
pub open spec fn pkexec_pair(uid: Option<Seq<char>>, group: Option<Seq<char>>) -> Option<
    (nat, nat),
> {
    match uid {
        Some(u) => match parsed(u, u32::MAX as nat) {
            Some(a) => if a != 0 {
                let g = match group {
                    Some(x) => parsed(x, u32::MAX as nat),
                    None => None,
                };
                Some(
                    (
                        a,
                        match g {
                            Some(b) => b,
                            None => a,
                        },
                    ),
                )
            } else {
                None
            },
            None => None,
        },
        None => None,
    }
}

/// The user and the group of whoever called; nothing where the process is not elevated.
pub open spec fn caller_ids(
    sudo_uid: Option<Seq<char>>,
    sudo_gid: Option<Seq<char>>,
    pkexec_uid: Option<Seq<char>>,
    pkexec_group: Option<Seq<char>>,
) -> Option<(nat, nat)> {
    match sudo_pair(sudo_uid, sudo_gid) {
        Some(p) => Some(p),
        None => pkexec_pair(pkexec_uid, pkexec_group),
    }
}

/// The user and the group of whoever called. `pkexec_group` is the group that the database
/// gives for `PKEXEC_UID`.
pub fn invoking_user_ids(
    sudo_uid: Option<&str>,
    sudo_gid: Option<&str>,
    pkexec_uid: Option<&str>,
    pkexec_group: Option<&str>,
) -> (r: Option<(u32, u32)>)
    ensures
        match r {
            Some(p) => caller_ids(
                opt_str(sudo_uid),
                opt_str(sudo_gid),
                opt_str(pkexec_uid),
                opt_str(pkexec_group),
            ) == Some((p.0 as nat, p.1 as nat)),
            None => caller_ids(
                opt_str(sudo_uid),
                opt_str(sudo_gid),
                opt_str(pkexec_uid),
                opt_str(pkexec_group),
            ) is None,
        },
{
    match (sudo_uid, sudo_gid) {
        (Some(u), Some(g)) => {
            match (parse_u32(u), parse_u32(g)) {
                (Some(a), Some(b)) => {
                    if a != 0 {
                        return Some((a, b));
                    }
                },
                _ => {},
            }
        },
        _ => {},
    }
    match pkexec_uid {
        Some(u) => {
            match parse_u32(u) {
                Some(a) => {
                    if a != 0 {
                        let g: Option<u32> = match pkexec_group {
                            Some(x) => parse_u32(x),
                            None => None,
                        };
                        return Some(
                            (
                                a,
                                match g {
                                    Some(b) => b,
                                    None => a,
                                },
                            ),
                        );
                    }
                },
                None => {},
            }
        },
        None => {},
    }
    None
}

/// Whoever called is never taken for root.
pub proof fn caller_is_not_root(
    sudo_uid: Option<Seq<char>>,
    sudo_gid: Option<Seq<char>>,
    pkexec_uid: Option<Seq<char>>,
    pkexec_group: Option<Seq<char>>,
)
    ensures
        caller_ids(sudo_uid, sudo_gid, pkexec_uid, pkexec_group) matches Some(p) ==> p.0 != 0,
{
}

// ── Directories ─────────────────────────────────────────────────────────────

/// The data of the program below a home directory. The variables of the environment do
/// not count here: both the interface and its elevated runs must come to the same place.
pub open spec fn data_dir(home: Seq<char>) -> Seq<char> {
    below(below(below(home, ".local"@), "share"@), "zaprust"@)
}

/// The data of the program below a home directory.
pub fn data_base(home: Option<&str>) -> (r: Option<String>)
    ensures
        opt_text(r) == (match home {
            Some(h) => Some(data_dir(h@)),
            None => None,
        }),
{
    match home {
        Some(h) => {
            let a = join_path(h, ".local");
            let b = join_path(a.as_str(), "share");
            Some(join_path(b.as_str(), "zaprust"))
        },
        None => None,
    }
}

/// The core below a home directory that may be known.
pub open spec fn core_of(home: Option<Seq<char>>) -> Option<Seq<char>> {
    match home {
        Some(h) => Some(below(data_dir(h), "core"@)),
        None => None,
    }
}

/// The core below a home directory.
pub fn core_base(home: Option<&str>) -> (r: Option<String>)
    ensures
        opt_text(r) == core_of(opt_str(home)),
{
    match data_base(home) {
        Some(d) => Some(join_path(d.as_str(), "core")),
        None => None,
    }
}

/// Where the core is to be installed.
pub fn preferred_core_dir(home: Option<&str>) -> (r: String)
    ensures
        r@ == (match home {
            Some(h) => below(data_dir(h@), "core"@),
            None => "core"@,
        }),
{
    match core_base(home) {
        Some(c) => c,
        None => "core".to_owned(),
    }
}

/// The directory of the configuration: `XDG_CONFIG_HOME` where it is absolute and the
/// process is not elevated, else `~/.config`.
pub open spec fn config_dir_of(elevated: bool, xdg: Option<Seq<char>>, home: Option<Seq<char>>) -> Option<
    Seq<char>,
> {
    if !elevated && (xdg matches Some(d) && begins(d, "/"@)) {
        Some(below(xdg->0, "zaprust"@))
    } else {
        match home {
            Some(h) => Some(below(below(h, ".config"@), "zaprust"@)),
            None => None,
        }
    }
}

/// The file of the configuration. `home` is the home directory of whoever called.
pub fn config_path(elevated: bool, xdg: Option<&str>, home: Option<&str>) -> (r: Option<String>)
    ensures
        opt_text(r) == (match config_dir_of(elevated, opt_str(xdg), opt_str(home)) {
            Some(d) => Some(below(d, "config.json"@)),
            None => None,
        }),
{
    if !elevated {
        match xdg {
            Some(d) => {
                if starts_with(d, "/") {
                    return Some(join_path(join_path(d, "zaprust").as_str(), "config.json"));
                }
            },
            None => {},
        }
    }
    match home {
        Some(h) => {
            let a = join_path(h, ".config");
            let b = join_path(a.as_str(), "zaprust");
            Some(join_path(b.as_str(), "config.json"))
        },
        None => None,
    }
}

/// The directory of the log below a home directory that may be known.
pub open spec fn logs_of(home: Option<Seq<char>>) -> Option<Seq<char>> {
    match home {
        Some(h) => Some(below(below(below(below(h, ".local"@), "state"@), "zaprust"@), "logs"@)),
        None => None,
    }
}

/// The interface, which a user runs without `sudo` and `pkexec`, and its elevated runs come
/// to the same core and the same log, as soon as the user database gives `HOME` as the home
/// directory of that user. Under `pkexec` that holds whatever else the environment of the
/// elevated run says.
pub proof fn both_sides_meet(user: Caller, root: Caller)
    requires
        user.pkexec_home is None,
        user.sudo_user is None,
        user.home is Some,
        opt_str(root.pkexec_home) == opt_str(user.home) || (root.pkexec_home is None
            && (root.sudo_user matches Some(u) && u@.len() > 0 && u@ != "root"@) && opt_str(
            root.sudo_home,
        ) == opt_str(user.home)),
    ensures
        caller_home(root) == opt_str(user.home),
        core_of(caller_home(root)) == core_of(caller_home(user)),
        logs_of(caller_home(root)) == logs_of(caller_home(user)),
        core_of(caller_home(root)) is Some,
        logs_of(caller_home(root)) is Some,
{
}

/// The directory of the log below a home directory. Like the data, it is the same for the
/// interface and its elevated runs.
pub fn state_log_dir(home: Option<&str>) -> (r: Option<String>)
    ensures
        opt_text(r) == logs_of(opt_str(home)),
{
    match home {
        Some(h) => {
            let a = join_path(h, ".local");
            let b = join_path(a.as_str(), "state");
            let c = join_path(b.as_str(), "zaprust");
            Some(join_path(c.as_str(), "logs"))
        },
        None => None,
    }
}

/// What gives a new file or directory to whoever called. `ancestors` are the directories
/// above it, from the nearest on, as their paths and their names.
pub open spec fn chown_commands(
    elevated: bool,
    ids: Option<(u32, u32)>,
    path: Seq<char>,
    ancestors: Seq<(Seq<char>, Seq<char>)>,
) -> Seq<InvocationView> {
    if elevated && ids is Some {
        let spec_text = decimal((ids->0).0 as nat) + ":"@ + decimal((ids->0).1 as nat);
        seq![
            InvocationView { program: "chown"@, args: seq!["-R"@, spec_text, path] },
        ] + (match own_dir(ancestors) {
            Some(d) => seq![InvocationView { program: "chown"@, args: seq![spec_text, d] }],
            None => Seq::empty(),
        })
    } else {
        Seq::empty()
    }
}

/// The nearest directory that is named after the program.
pub open spec fn own_dir(ancestors: Seq<(Seq<char>, Seq<char>)>) -> Option<Seq<char>>
    decreases ancestors.len(),
{
    if ancestors.len() == 0 {
        None
    } else if ancestors[0].1 == "zaprust"@ {
        Some(ancestors[0].0)
    } else {
        own_dir(ancestors.skip(1))
    }
}

/// A directory above a file: its path and its name.
#[derive(Debug)]
pub struct Ancestor {
    pub path: String,
    pub name: String,
}

/// Directories as mathematical values.
pub open spec fn ancestors_view(v: Seq<Ancestor>) -> Seq<(Seq<char>, Seq<char>)> {
    Seq::new(v.len(), |i: int| (v[i].path@, v[i].name@))
}

/// Commands as mathematical values.
pub open spec fn commands(v: Seq<Invocation>) -> Seq<InvocationView> {
    Seq::new(v.len(), |i: int| v[i]@)
}

/// What gives a new file or directory, which an elevated run has made, to whoever called:
/// the file itself with all below it, and the nearest directory above it that is named
/// after the program. Nothing where the process is not elevated or the caller not known.
pub fn chown_to_invoker(
    elevated: bool,
    ids: Option<(u32, u32)>,
    path: &str,
    ancestors: &[Ancestor],
) -> (r: Vec<Invocation>)
    ensures
        commands(r@) == chown_commands(elevated, ids, path@, ancestors_view(ancestors@)),
{
    let mut v: Vec<Invocation> = Vec::new();
    if !elevated {
        assert(commands(v@) =~= Seq::<InvocationView>::empty());
        return v;
    }
    match ids {
        None => {
            assert(commands(v@) =~= Seq::<InvocationView>::empty());
        },
        Some(p) => {
            let mut owner = decimal_text(p.0 as u64);
            owner.append(":");
            owner.append(decimal_text(p.1 as u64).as_str());
            let all = strings(&["-R", owner.as_str(), path]);
            assert(texts(all@) =~= seq!["-R"@, owner@, path@]);
            v.push(Invocation { program: "chown".to_owned(), args: all });
            let ghost av = ancestors_view(ancestors@);
            let mut i: usize = 0;
            assert(av.skip(0) =~= av);
            while i < ancestors.len()
                invariant
                    i <= ancestors@.len(),
                    av == ancestors_view(ancestors@),
                    own_dir(av) == own_dir(av.skip(i as int)),
                    elevated,
                    ids == Some(p),
                    owner@ == decimal(p.0 as nat) + ":"@ + decimal(p.1 as nat),
                    v@.len() == 1,
                    v@[0]@ == (InvocationView {
                        program: "chown"@,
                        args: seq!["-R"@, owner@, path@],
                    }),
                decreases ancestors@.len() - i,
            {
                assert(av.skip(i as int)[0] == av[i as int]);
                assert(av.skip(i as int).skip(1) =~= av.skip(i + 1));
                if same(ancestors[i].name.as_str(), "zaprust") {
                    let one = strings(&[owner.as_str(), ancestors[i].path.as_str()]);
                    assert(texts(one@) =~= seq![owner@, ancestors@[i as int].path@]);
                    v.push(Invocation { program: "chown".to_owned(), args: one });
                    assert(commands(v@) =~= chown_commands(elevated, ids, path@, av));
                    return v;
                }
                i += 1;
            }
            assert(commands(v@) =~= chown_commands(elevated, ids, path@, av));
        },
    }
    v
}

// ── The system ──────────────────────────────────────────────────────────────

/// The name of the system: what `/etc/os-release` calls it, else the general name.
pub open spec fn os_name(release: Option<Seq<char>>, os: Seq<char>) -> Seq<char> {
    let pretty = match release {
        Some(t) => line_value(lines_of(t), "PRETTY_NAME="@),
        None => None,
    };
    match pretty {
        Some(v) => if trim_by(v, only('"')).len() > 0 {
            trim_by(v, only('"'))
        } else {
            os
        },
        None => os,
    }
}

/// The name of the system. `release` is what `/etc/os-release` holds, `os` the general
/// name.
pub fn os_version(release: Option<&str>, os: &str) -> (r: String)
    ensures
        r@ == os_name(opt_str(release), os@),
{
    match release {
        Some(t) => {
            match find_line(t, "PRETTY_NAME=") {
                Some(v) => {
                    let name = trim_char(v.as_str(), '"');
                    if !name.is_empty() {
                        return name.to_owned();
                    }
                },
                None => {},
            }
        },
        None => {},
    }
    os.to_owned()
}

/// The version of the kernel, from what its file holds.
pub fn kernel_release(text: Option<&str>) -> (r: String)
    ensures
        r@ == (match text {
            Some(t) => trimmed(t@),
            None => "?"@,
        }),
{
    match text {
        Some(t) => trim(t).to_owned(),
        None => "?".to_owned(),
    }
}

/// What the diagnostics say of the machine.
pub struct Facts<'a> {
    pub kernel: &'a str,
    pub arch: &'a str,
    pub systemd: bool,
    pub backend: Option<Backend>,
    pub euid: &'a str,
    pub nfqws: Option<&'a str>,
    pub rules: Option<bool>,
    pub appimage: Option<&'a str>,
    /// The program that an elevated run starts, or why it is not known.
    pub target: Result<&'a str, &'a str>,
}

/// The lines of the diagnostics.
pub open spec fn fact_lines(f: Facts) -> Seq<Seq<char>> {
    seq![
        "ядро Linux: "@ + f.kernel@,
        "arch: "@ + f.arch@,
        "systemd: "@ + (if f.systemd {
            "да"@
        } else {
            "нет"@
        }),
        "фаервол: "@ + (match f.backend {
            Some(b) => label_of(ipt(b)),
            None => "нет nft/iptables"@,
        }),
        "euid: "@ + f.euid@,
        "nfqws: "@ + (match f.nfqws {
            Some(p) => p@,
            None => "не найден"@,
        }),
        "правила перехвата: "@ + (match f.rules {
            Some(true) => "есть"@,
            Some(false) => "нет"@,
            None => "?(нет прав на чтение)"@,
        }),
        "APPIMAGE: "@ + (match f.appimage {
            Some(a) => a@,
            None => "(не задан)"@,
        }),
        "цель реинвока: "@ + (match f.target {
            Ok(p) => p@,
            Err(e) => "?("@ + e@ + ")"@,
        }),
    ]
}

/// The lines of the diagnostics.
pub fn diag_lines(f: &Facts) -> (r: Vec<String>)
    ensures
        texts(r@) == fact_lines(*f),
{
    let mut v: Vec<String> = Vec::new();
    v.push(cat("ядро Linux: ", f.kernel));
    v.push(cat("arch: ", f.arch));
    v.push(
        cat(
            "systemd: ",
            if f.systemd {
                "да"
            } else {
                "нет"
            },
        ),
    );
    let fw = match f.backend {
        Some(b) => b.label(),
        None => "нет nft/iptables".to_owned(),
    };
    v.push(cat("фаервол: ", fw.as_str()));
    v.push(cat("euid: ", f.euid));
    v.push(
        cat(
            "nfqws: ",
            match f.nfqws {
                Some(p) => p,
                None => "не найден",
            },
        ),
    );
    v.push(
        cat(
            "правила перехвата: ",
            match f.rules {
                Some(b) => if b {
                    "есть"
                } else {
                    "нет"
                },
                None => "?(нет прав на чтение)",
            },
        ),
    );
    v.push(
        cat(
            "APPIMAGE: ",
            match f.appimage {
                Some(a) => a,
                None => "(не задан)",
            },
        ),
    );
    let target = match f.target {
        Ok(p) => p.to_owned(),
        Err(e) => crate::text::cat3("?(", e, ")"),
    };
    v.push(cat("цель реинвока: ", target.as_str()));
    assert(texts(v@) =~= fact_lines(*f));
    v
}

/// The programs that put a text, from their input, into the clipboard, in the order in
/// which to try them. `wayland` says which kind of session it is.
pub open spec fn clipboard_programs(wayland: bool) -> Seq<InvocationView> {
    let wl = InvocationView { program: "wl-copy"@, args: Seq::empty() };
    let xclip = InvocationView { program: "xclip"@, args: seq!["-selection"@, "clipboard"@] };
    let xsel = InvocationView { program: "xsel"@, args: seq!["--clipboard"@, "--input"@] };
    if wayland {
        seq![wl, xclip, xsel]
    } else {
        seq![xclip, xsel, wl]
    }
}

/// The programs that put a text into the clipboard, in the order in which to try them.
pub fn clipboard_candidates(wayland: bool) -> (r: Vec<Invocation>)
    ensures
        commands(r@) == clipboard_programs(wayland),
{
    let a = strings(&["-selection", "clipboard"]);
    let b = strings(&["--clipboard", "--input"]);
    assert(texts(a@) =~= seq!["-selection"@, "clipboard"@]);
    assert(texts(b@) =~= seq!["--clipboard"@, "--input"@]);
    let xclip = Invocation { program: "xclip".to_owned(), args: a };
    let xsel = Invocation { program: "xsel".to_owned(), args: b };
    let wl = Invocation { program: "wl-copy".to_owned(), args: Vec::new() };
    assert(texts(wl.args@) =~= Seq::<Seq<char>>::empty());
    let mut v: Vec<Invocation> = Vec::new();
    if wayland {
        v.push(wl);
        v.push(xclip);
        v.push(xsel);
    } else {
        v.push(xclip);
        v.push(xsel);
        v.push(wl);
    }
    assert(commands(v@) =~= clipboard_programs(wayland));
    v
}

// ── What holds of all callers ───────────────────────────────────────────────

/// The fields of the user database are those of its first line, in order and without the
/// colons between them; an empty field and one that is not there are none.
pub proof fn fields_are_read_from_the_first_line(
    fields: Seq<Seq<char>>,
    rest: Seq<char>,
    k: int,
)
    requires
        fields.len() > 0,
        0 <= k,
        forall|i: int|
            0 <= i < fields.len() ==> !(#[trigger] fields[i]).contains(':') && !fields[i].contains(
                '\n',
            ),
        joined(fields, seq![':']).len() == 0 || joined(fields, seq![':']).last() != '\r',
    ensures
        passwd_value(joined(fields, seq![':']) + seq!['\n'] + rest, k) == (if k < fields.len()
            && fields[k].len() > 0 {
            Some(fields[k])
        } else {
            None
        }),
        passwd_value(Seq::empty(), k) is None,
{
    let line = joined(fields, seq![':']);
    lemma_joined_lacks(fields, '\n');
    line_breaks_end_lines(line, rest);
    joined_pieces_come_back(fields, ':');
    line_breaks_end_lines(Seq::empty(), rest);
    assert(lines_of(line + seq!['\n'] + rest)[0] == line);
}

proof fn lemma_joined_lacks(fields: Seq<Seq<char>>, c: char)
    requires
        c != ':',
        forall|i: int| 0 <= i < fields.len() ==> !(#[trigger] fields[i]).contains(c),
    ensures
        !joined(fields, seq![':']).contains(c),
    decreases fields.len(),
{
    let s = joined(fields, seq![':']);
    if fields.len() > 0 && s.contains(c) {
        let i = choose|i: int| 0 <= i < s.len() && s[i] == c;
        let t = fields.drop_last();
        assert forall|j: int| 0 <= j < t.len() implies !(#[trigger] t[j]).contains(c) by {
            assert(t[j] == fields[j]);
        }
        lemma_joined_lacks(t, c);
        assert(!fields[fields.len() - 1].contains(c));
        if fields.len() > 1 {
            let x = joined(t, seq![':']);
            if i < x.len() {
                assert(x[i] == c);
            } else if i > x.len() {
                assert(fields.last()[i - x.len() - 1] == c);
            }
        } else {
            assert(fields[0][i] == c);
        }
    }
}

/// The home directory is that of whoever called: `pkexec` goes before `sudo`, and that before
/// the environment; a call of root through `sudo` does not count as one of somebody else.
pub proof fn the_home_of_the_caller_counts(c: Caller)
    ensures
        c.pkexec_home matches Some(h) ==> caller_home(c) == Some(h@),
        c.pkexec_home is None && (c.sudo_user matches Some(u) && u@.len() > 0 && u@ != "root"@)
            && c.sudo_home is Some ==> caller_home(c) == Some(c.sudo_home->0@),
        c.pkexec_home is None && (c.sudo_user matches Some(u) && u@.len() > 0 && u@ != "root"@
            && u@[0] != '/') && c.sudo_home is None && c.sudo_guess ==> caller_home(c) == Some(
            "/home/"@ + c.sudo_user->0@,
        ),
        c.pkexec_home is None && (c.sudo_user is None || c.sudo_user->0@ == "root"@
            || c.sudo_user->0@.len() == 0) ==> caller_home(c) == opt_str(c.home),
        c.pkexec_home is None && c.sudo_home is None && !c.sudo_guess ==> caller_home(c) == opt_str(
            c.home,
        ),
{
    reveal_strlit("/");
    reveal_strlit("/home");
    reveal_strlit("/home/");
    match c.sudo_user {
        Some(u) => {
            if begins(u@, "/"@) {
                assert(u@.take(1)[0] == u@[0]);
            }
            assert("/home"@ + "/"@ + u@ =~= "/home/"@ + u@);
        },
        None => {},
    }
}

/// The user and the group are the two numbers that `sudo` gives, and only without those the
/// one of `pkexec` with the group of the database, or of the same number where that gives
/// none. Root is nobody else.
pub proof fn the_caller_is_who_called(u: u32, g: u32, p: u32, h: u32, other: Option<Seq<char>>)
    ensures
        ({
            let du = Some(decimal(u as nat));
            let dg = Some(decimal(g as nat));
            let dp = Some(decimal(p as nat));
            let dh = Some(decimal(h as nat));
            &&& u != 0 ==> caller_ids(du, dg, other, other) == Some((u as nat, g as nat))
            &&& u == 0 && p != 0 ==> caller_ids(du, dg, dp, dh) == Some((p as nat, h as nat))
            &&& p != 0 ==> caller_ids(None, other, dp, dh) == Some((p as nat, h as nat))
            &&& p != 0 ==> caller_ids(other, None, dp, None) == Some((p as nat, p as nat))
            &&& u == 0 && p == 0 ==> caller_ids(du, dg, dp, dh) is None
            &&& caller_ids(None, other, None, other) is None
        }),
{
    decimal_reads_back(u as nat, u32::MAX as nat);
    decimal_reads_back(g as nat, u32::MAX as nat);
    decimal_reads_back(p as nat, u32::MAX as nat);
    decimal_reads_back(h as nat, u32::MAX as nat);
}

/// The places of the program below a home directory: the core, the log and the
/// configuration. `XDG_CONFIG_HOME` counts only where it is absolute, and never for an
/// elevated run, to which it says nothing of whoever called.
pub proof fn the_program_has_its_places(home: Seq<char>, xdg: Seq<char>, elevated: bool)
    requires
        home.len() > 0,
        home.last() != '/',
        xdg.len() > 0,
        xdg.last() != '/',
    ensures
        core_of(Some(home)) == Some(home + "/.local/share/zaprust/core"@),
        logs_of(Some(home)) == Some(home + "/.local/state/zaprust/logs"@),
        config_dir_of(true, Some(xdg), Some(home)) == Some(home + "/.config/zaprust"@),
        config_dir_of(elevated, None, Some(home)) == Some(home + "/.config/zaprust"@),
        config_dir_of(false, Some(xdg), Some(home)) == (if xdg[0] == '/' {
            Some(xdg + "/zaprust"@)
        } else {
            Some(home + "/.config/zaprust"@)
        }),
        core_of(None) is None && logs_of(None) is None && config_dir_of(elevated, None, None) is None,
{
    reveal_strlit("/");
    reveal_strlit(".local");
    reveal_strlit("share");
    reveal_strlit("state");
    reveal_strlit("zaprust");
    reveal_strlit("core");
    reveal_strlit("logs");
    reveal_strlit(".config");
    reveal_strlit("/.local/share/zaprust/core");
    reveal_strlit("/.local/state/zaprust/logs");
    reveal_strlit("/.config/zaprust");
    reveal_strlit("/zaprust");
    let a = home + "/"@ + ".local"@;
    let b = a + "/"@ + "share"@;
    let c = b + "/"@ + "zaprust"@;
    let d = c + "/"@ + "core"@;
    assert(a.last() == 'l' && b.last() == 'e' && c.last() == 't');
    assert(d =~= home + "/.local/share/zaprust/core"@);
    let e = a + "/"@ + "state"@;
    let f = e + "/"@ + "zaprust"@;
    let g = f + "/"@ + "logs"@;
    assert(e.last() == 'e' && f.last() == 't');
    assert(g =~= home + "/.local/state/zaprust/logs"@);
    let h = home + "/"@ + ".config"@;
    assert(h.last() == 'g');
    assert(h + "/"@ + "zaprust"@ =~= home + "/.config/zaprust"@);
    assert(xdg + "/"@ + "zaprust"@ =~= xdg + "/zaprust"@);
    if xdg[0] == '/' {
        assert(xdg.take(1) =~= "/"@);
    } else if begins(xdg, "/"@) {
        assert(xdg.take(1)[0] == xdg[0]);
    }
}

/// What an elevated run makes belongs to whoever called: the file with all below it, and the
/// nearest directory above it that is named after the program. Without elevation, or without
/// a caller, nothing changes hands.
pub proof fn new_files_belong_to_the_caller(
    uid: u32,
    gid: u32,
    path: Seq<char>,
    above: Seq<(Seq<char>, Seq<char>)>,
    k: int,
)
    ensures
        chown_commands(false, Some((uid, gid)), path, above).len() == 0,
        chown_commands(true, None, path, above).len() == 0,
        ({
            let owner = decimal(uid as nat) + ":"@ + decimal(gid as nat);
            let c = chown_commands(true, Some((uid, gid)), path, above);
            &&& c.len() > 0 && c[0].program == "chown"@ && c[0].args == seq!["-R"@, owner, path]
            &&& 0 <= k < above.len() && above[k].1 == "zaprust"@ && (forall|j: int|
                0 <= j < k ==> (#[trigger] above[j]).1 != "zaprust"@) ==> c.len() == 2
                && c[1].program == "chown"@ && c[1].args == seq![owner, above[k].0]
            &&& (forall|j: int| 0 <= j < above.len() ==> (#[trigger] above[j]).1 != "zaprust"@)
                ==> c.len() == 1
        }),
{
    lemma_own_dir(above, k);
}

proof fn lemma_own_dir(above: Seq<(Seq<char>, Seq<char>)>, k: int)
    ensures
        0 <= k < above.len() && above[k].1 == "zaprust"@ && (forall|j: int|
            0 <= j < k ==> (#[trigger] above[j]).1 != "zaprust"@) ==> own_dir(above) == Some(
            above[k].0,
        ),
        (forall|j: int| 0 <= j < above.len() ==> (#[trigger] above[j]).1 != "zaprust"@) ==> own_dir(
            above,
        ) is None,
    decreases above.len(),
{
    if above.len() > 0 && above[0].1 != "zaprust"@ {
        let t = above.skip(1);
        lemma_own_dir(t, k - 1);
        assert forall|j: int| 0 <= j < t.len() implies #[trigger] t[j] == above[j + 1] by {}
    } else if above.len() > 0 {
        assert(above[0].1 == "zaprust"@);
    }
}

/// The system goes by the name that it gives itself, without the quotation marks round it,
/// and by its general name where it gives none.
pub proof fn the_system_names_itself(name: Seq<char>, rest: Seq<char>, os: Seq<char>)
    requires
        name.len() > 0,
        !name.contains('\n'),
        name[0] != '"',
        name.last() != '"',
    ensures
        os_name(Some("PRETTY_NAME=\""@ + name + "\"\n"@ + rest), os) == name,
        os_name(None, os) == os,
        os_name(Some(Seq::empty()), os) == os,
{
    reveal_strlit("PRETTY_NAME=\"");
    reveal_strlit("PRETTY_NAME=");
    reveal_strlit("\"\n");
    let q = seq!['"'];
    let v = q + name + q;
    let line = "PRETTY_NAME="@ + v;
    assert("PRETTY_NAME=\""@ + name + "\"\n"@ + rest =~= line + seq!['\n'] + rest);
    assert(!line.contains('\n')) by {
        if line.contains('\n') {
            let i = choose|i: int| 0 <= i < line.len() && line[i] == '\n';
            if i >= 13 && i < 13 + name.len() {
                assert(name[i - 13] == '\n');
            }
        }
    }
    assert(line.last() == '"');
    line_breaks_end_lines(line, rest);
    let ls = lines_of(line + seq!['\n'] + rest);
    assert(ls[0] == line);
    assert(line.take(12) =~= "PRETTY_NAME="@);
    assert(line.skip(12) =~= v);
    assert forall|i: int| 0 <= i < q.len() implies only('"')(#[trigger] q[i]) by {}
    trimming_takes_off_the_ends(q, name, q, only('"'));
    line_breaks_end_lines(Seq::empty(), rest);
}

/// Whichever the session, every program that can fill the clipboard is tried; that of the
/// session comes first.
pub proof fn the_clipboard_of_the_session_goes_first(wayland: bool)
    ensures
        clipboard_programs(wayland).len() == 3,
        clipboard_programs(true)[0].program == "wl-copy"@,
        clipboard_programs(false)[0].program == "xclip"@,
        forall|c: InvocationView| #[trigger]
            clipboard_programs(true).contains(c) ==> clipboard_programs(false).contains(c),
{
    let a = clipboard_programs(true);
    let b = clipboard_programs(false);
    assert(b[2] == a[0] && b[0] == a[1] && b[1] == a[2]);
}

/// A user is looked for below `/home` by name, and a text that is a path already is taken
/// as it is.
pub proof fn homes_are_guessed(user: Seq<char>)
    requires
        user.len() > 0,
    ensures
        user[0] == '/' ==> home_guess(user) == user,
        user[0] != '/' ==> home_guess(user) == "/home/"@ + user,
{
    reveal_strlit("/");
    reveal_strlit("/home");
    reveal_strlit("/home/");
    assert("/"@.len() == 1 && "/"@[0] == '/');
    if user[0] == '/' {
        assert(user.take(1) =~= "/"@);
    } else {
        assert(user.take(1)[0] == user[0]);
        assert("/home"@.last() == 'e');
        assert("/home"@ + "/"@ + user =~= "/home/"@ + user);
    }
}

/// The system always has a name: one that it gives itself and that is empty counts as none.
pub proof fn the_system_has_a_name(release: Option<Seq<char>>, os: Seq<char>)
    ensures
        os.len() > 0 ==> os_name(release, os).len() > 0,
{
}

} // verus!
