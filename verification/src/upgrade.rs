//! How the core is updated: what there is to do, with or without rights, and what is said
//! of it.
use vstd::prelude::*;

use crate::operation::{prefix_lines, switch_text};
use crate::platform::ServiceState;
use crate::text::{cat, cat3, decimal_text, join, same, same_opt, signed_text, strings};
use crate::updater::LatestRelease;

verus! {

use crate::cli::arg;
use crate::operation::{prefixed, switch_word};
use crate::text::{begins, decimal, ends, joined, opt_str, opt_text, signed, texts};

// ── Downloads ───────────────────────────────────────────────────────────────

/// The share of a download that is done, in percent.
pub open spec fn percent(done: u64, total: u64) -> int {
    done * 100 / total as int
}

/// Whether a download reports: its size is known, and since the last report at least a
/// fifth has come in. The result is the new share.
pub fn progress(last_pct: u64, done: u64, total: Option<u64>) -> (r: Option<u64>)
    requires
        total matches Some(t) && t > 0 ==> done * 100 <= u64::MAX && last_pct + 20 <= u64::MAX,
    ensures
        r == (match total {
            Some(t) => if t > 0 && percent(done, t) >= last_pct + 20 {
                Some(percent(done, t) as u64)
            } else {
                None
            },
            None => None,
        }),
        total matches Some(t) ==> t > 0 ==> (r is Some <==> reported(
            last_pct as int,
            seq![done],
            t,
        ).len() > 0),
{
    proof {
        if total is Some {
            reveal_with_fuel(reported, 2);
            assert(seq![done].skip(1) =~= Seq::<u64>::empty());
        }
    }
    match total {
        Some(t) => {
            if t == 0 {
                return None;
            }
            let pct: u64 = done * 100 / t;
            if pct >= last_pct + 20 {
                Some(pct)
            } else {
                None
            }
        },
        None => None,
    }
}

/// The line of such a report.
pub fn progress_line(what: &str, pct: u64) -> (r: String)
    ensures
        r@ == what@ + ": скачано "@ + decimal(pct as nat) + "%"@,
{
    let mut s = cat3(what, ": скачано ", decimal_text(pct).as_str());
    s.append("%");
    s
}

/// The shares that a download reports, one after another.
pub open spec fn reported(last_pct: int, dones: Seq<u64>, total: u64) -> Seq<int>
    decreases dones.len(),
{
    if dones.len() == 0 {
        Seq::empty()
    } else if percent(dones[0], total) >= last_pct + 20 {
        seq![percent(dones[0], total)] + reported(percent(dones[0], total), dones.skip(1), total)
    } else {
        reported(last_pct, dones.skip(1), total)
    }
}

/// A download reports sparingly: between any two reports at least a fifth has come in.
pub proof fn reports_are_a_fifth_apart(last_pct: int, dones: Seq<u64>, total: u64)
    ensures
        reported(last_pct, dones, total).len() > 0 ==> reported(last_pct, dones, total)[0]
            >= last_pct + 20,
        forall|i: int|
            0 <= i < reported(last_pct, dones, total).len() - 1 ==> #[trigger] reported(
                last_pct,
                dones,
                total,
            )[i] + 20 <= reported(last_pct, dones, total)[i + 1],
    decreases dones.len(),
{
    if dones.len() > 0 {
        let p = percent(dones[0], total);
        if p >= last_pct + 20 {
            reports_are_a_fifth_apart(p, dones.skip(1), total);
            let rest = reported(p, dones.skip(1), total);
            let all = reported(last_pct, dones, total);
            assert forall|i: int| 0 <= i < all.len() - 1 implies #[trigger] all[i] + 20 <= all[i
                + 1] by {
                if i > 0 {
                    assert(all[i] == rest[i - 1]);
                }
                assert(all[i + 1] == rest[i]);
            }
        } else {
            reports_are_a_fifth_apart(last_pct, dones.skip(1), total);
        }
    }
}

// ── Planning ────────────────────────────────────────────────────────────────

/// What there is to update on Linux, where the core has two sources.
#[derive(Debug)]
pub struct UpdatePlan {
    /// Whether the strategies are to be replaced.
    pub assets: bool,
    /// Whether the engine is to be replaced.
    pub engine: bool,
    /// The lines to begin with.
    pub notes: Vec<String>,
    /// What is said in the end; where there is nothing to do, the whole answer.
    pub done: String,
}

/// A version as it is shown where it may be missing.
pub open spec fn version_word(v: Option<Seq<char>>) -> Seq<char> {
    match v {
        Some(t) => t,
        None => "неизвестна"@,
    }
}

/// The line on an update that is there.
pub open spec fn note_of(
    what: Seq<char>,
    tag: Seq<char>,
    local: Option<Seq<char>>,
) -> Seq<char> {
    what + tag + " (текущая: "@ + version_word(local) + ")"@
}

/// The parts that are replaced.
pub open spec fn parts_of(
    fs: bool,
    fs_tag: Seq<char>,
    bv: bool,
    bv_tag: Seq<char>,
) -> Seq<Seq<char>> {
    (if fs {
        seq!["Flowseal "@ + fs_tag]
    } else {
        Seq::empty()
    }) + (if bv {
        seq!["nfqws "@ + bv_tag]
    } else {
        Seq::empty()
    })
}

/// What is said in the end.
pub open spec fn done_of(fs: bool, fs_tag: Seq<char>, bv: bool, bv_tag: Seq<char>) -> Seq<char> {
    if !fs && !bv {
        "уже актуально (Flowseal "@ + fs_tag + ", nfqws "@ + bv_tag + ")"@
    } else {
        "обновлено: "@ + joined(parts_of(fs, fs_tag, bv, bv_tag), " + "@)
    }
}

/// The lines to begin with.
pub open spec fn notes_of(
    fs: bool,
    fs_tag: Seq<char>,
    fs_local: Option<Seq<char>>,
    bv: bool,
    bv_tag: Seq<char>,
    bv_local: Option<Seq<char>>,
) -> Seq<Seq<char>> {
    (if fs {
        seq![note_of("обновление: Flowseal "@, fs_tag, fs_local)]
    } else {
        Seq::empty()
    }) + (if bv {
        seq![note_of("обновление: nfqws "@, bv_tag, bv_local)]
    } else {
        Seq::empty()
    })
}

fn note_text(what: &str, tag: &str, local: &Option<String>) -> (r: String)
    ensures
        r@ == note_of(what@, tag@, opt_text(*local)),
{
    let mut s = cat3(what, tag, " (текущая: ");
    match local {
        Some(v) => {
            s.append(v.as_str());
        },
        None => {
            s.append("неизвестна");
        },
    }
    s.append(")");
    s
}

/// Whether a source is to be replaced: its latest version is not the installed one.
pub open spec fn outdated(local: Option<Seq<char>>, latest: Seq<char>) -> bool {
    local != Some(latest)
}

/// What there is to update on Linux: each source whose latest version is not the installed
/// one.
pub fn run_update_linux(
    fs: &LatestRelease,
    fs_local: &Option<String>,
    bv: &LatestRelease,
    bv_local: &Option<String>,
) -> (r: UpdatePlan)
    ensures
        r.assets == (opt_text(*fs_local) != Some(fs.tag@)),
        r.engine == (opt_text(*bv_local) != Some(bv.tag@)),
        r.assets == outdated(opt_text(*fs_local), fs.tag@),
        r.engine == outdated(opt_text(*bv_local), bv.tag@),
        texts(r.notes@) == notes_of(
            r.assets,
            fs.tag@,
            opt_text(*fs_local),
            r.engine,
            bv.tag@,
            opt_text(*bv_local),
        ),
        r.done@ == done_of(r.assets, fs.tag@, r.engine, bv.tag@),
{
    let assets = !same_opt(fs_local, fs.tag.as_str());
    let engine = !same_opt(bv_local, bv.tag.as_str());
    let mut notes: Vec<String> = Vec::new();
    let mut parts: Vec<String> = Vec::new();
    if assets {
        notes.push(note_text("обновление: Flowseal ", fs.tag.as_str(), fs_local));
        parts.push(cat("Flowseal ", fs.tag.as_str()));
    }
    if engine {
        notes.push(note_text("обновление: nfqws ", bv.tag.as_str(), bv_local));
        parts.push(cat("nfqws ", bv.tag.as_str()));
    }
    assert(texts(notes@) =~= notes_of(
        assets,
        fs.tag@,
        opt_text(*fs_local),
        engine,
        bv.tag@,
        opt_text(*bv_local),
    ));
    assert(texts(parts@) =~= parts_of(assets, fs.tag@, engine, bv.tag@));
    let done = if !assets && !engine {
        let mut s = cat3("уже актуально (Flowseal ", fs.tag.as_str(), ", nfqws ");
        s.append(bv.tag.as_str());
        s.append(")");
        s
    } else {
        cat("обновлено: ", join(&parts, " + ").as_str())
    };
    UpdatePlan { assets, engine, notes, done }
}

/// The strategy and the game filter at the end of the arguments of an elevated run.
pub open spec fn strategy_args(strategy: Option<Seq<char>>, gf: bool) -> Seq<Seq<char>> {
    match strategy {
        Some(n) => seq![n, switch_word(gf)],
        None => Seq::empty(),
    }
}

fn push_strategy(v: &mut Vec<String>, strategy: Option<&str>, gf: bool)
    ensures
        texts(final(v)@) == texts(old(v)@) + strategy_args(opt_str(strategy), gf),
{
    let ghost before = texts(v@);
    match strategy {
        Some(n) => {
            v.push(n.to_owned());
            v.push(switch_text(gf).to_owned());
            assert(texts(v@) =~= before + seq![n@, switch_word(gf)]);
        },
        None => {
            assert(before + Seq::<Seq<char>>::empty() =~= before);
        },
    }
}

/// An archive as an argument: a hyphen stands for a source that is not updated.
pub open spec fn zip_arg(wanted: bool, zip: Seq<char>) -> Seq<char> {
    if wanted {
        zip
    } else {
        "-"@
    }
}

/// The arguments of the elevated run that replaces the core on Linux.
pub open spec fn linux_args(
    assets: bool,
    engine: bool,
    fs_zip: Seq<char>,
    fs_tag: Seq<char>,
    bv_zip: Seq<char>,
    bv_tag: Seq<char>,
    strategy: Option<Seq<char>>,
    gf: bool,
) -> Seq<Seq<char>> {
    seq!["--apply-update"@, zip_arg(assets, fs_zip), fs_tag, zip_arg(engine, bv_zip), bv_tag]
        + strategy_args(strategy, gf)
}

/// The arguments of the elevated run that replaces the core on Linux.
pub fn apply_args_linux(
    plan: &UpdatePlan,
    fs_zip: &str,
    fs_tag: &str,
    bv_zip: &str,
    bv_tag: &str,
    strategy: Option<&str>,
    game_filter: bool,
) -> (r: Vec<String>)
    ensures
        texts(r@) == linux_args(
            plan.assets,
            plan.engine,
            fs_zip@,
            fs_tag@,
            bv_zip@,
            bv_tag@,
            opt_str(strategy),
            game_filter,
        ),
{
    let a = if plan.assets {
        fs_zip
    } else {
        "-"
    };
    let b = if plan.engine {
        bv_zip
    } else {
        "-"
    };
    let mut v = strings(&["--apply-update", a, fs_tag, b, bv_tag]);
    assert(texts(v@) =~= seq!["--apply-update"@, a@, fs_tag@, b@, bv_tag@]);
    push_strategy(&mut v, strategy, game_filter);
    v
}

/// The arguments of the elevated run that replaces the core on Windows.
pub open spec fn windows_args(
    zip: Seq<char>,
    tag: Seq<char>,
    strategy: Option<Seq<char>>,
    gf: bool,
) -> Seq<Seq<char>> {
    seq!["--apply-update"@, zip, tag] + strategy_args(strategy, gf)
}

/// The arguments of the elevated run that replaces the core on Windows.
pub fn apply_args_windows(zip: &str, tag: &str, strategy: Option<&str>, game_filter: bool) -> (r:
    Vec<String>)
    ensures
        texts(r@) == windows_args(zip@, tag@, opt_str(strategy), game_filter),
{
    let mut v = strings(&["--apply-update", zip, tag]);
    assert(texts(v@) =~= seq!["--apply-update"@, zip@, tag@]);
    push_strategy(&mut v, strategy, game_filter);
    v
}

/// What is done, one after another, where no service is installed and the user may replace
/// the core: each source that is to be updated is replaced, and its version noted. The
/// first failure ends it.
pub open spec fn direct_stages(assets: bool, engine: bool) -> Seq<ApplyStage> {
    (if assets {
        seq![ApplyStage::Assets, ApplyStage::AssetsVersion]
    } else {
        Seq::empty()
    }) + (if engine {
        seq![ApplyStage::Engine, ApplyStage::EngineVersion]
    } else {
        Seq::empty()
    })
}

/// Whether the user may replace the core without a dialog: no service is installed that
/// would have to be stopped.
pub fn updates_directly(state: ServiceState) -> (r: bool)
    ensures
        r == !(state is Running || state is Stopped),
{
    !state.installed()
}

/// What is done, one after another, where the user may replace the core.
pub fn direct_update(plan: &UpdatePlan) -> (r: Vec<ApplyStage>)
    ensures
        r@ == direct_stages(plan.assets, plan.engine),
{
    let mut v: Vec<ApplyStage> = Vec::new();
    if plan.assets {
        v.push(ApplyStage::Assets);
        v.push(ApplyStage::AssetsVersion);
    }
    if plan.engine {
        v.push(ApplyStage::Engine);
        v.push(ApplyStage::EngineVersion);
    }
    assert(v@ =~= direct_stages(plan.assets, plan.engine));
    v
}

/// What there is to update on Windows: nothing, and then this is the answer; or the
/// release, and then this is the line to begin with.
pub fn run_update_windows(latest: &LatestRelease, local: &Option<String>) -> (r: (bool, String))
    ensures
        r.0 == (opt_text(*local) != Some(latest.tag@)),
        r.0 == outdated(opt_text(*local), latest.tag@),
        r.1@ == (if r.0 {
            note_of("обновление: доступна "@, latest.tag@, opt_text(*local))
        } else {
            "уже актуально ("@ + latest.tag@ + ")"@
        }),
{
    if same_opt(local, latest.tag.as_str()) {
        (false, cat3("уже актуально (", latest.tag.as_str(), ")"))
    } else {
        (true, note_text("обновление: доступна ", latest.tag.as_str(), local))
    }
}

/// The answer to an elevated run that ended with a code or could not begin: the given words,
/// or the error, which other words introduce where there is a code.
pub open spec fn answer_of(
    code: Result<i32, Seq<char>>,
    done: Seq<char>,
    failed: Seq<char>,
) -> Result<Seq<char>, Seq<char>> {
    match code {
        Ok(c) => if c == 0 {
            Ok(done)
        } else {
            Err(failed + " (код "@ + signed(c as int) + ")"@)
        },
        Err(e) => Err(e),
    }
}

/// An end of an elevated run as a mathematical value.
pub open spec fn end_of(code: Result<i32, String>) -> Result<i32, Seq<char>> {
    match code {
        Ok(c) => Ok(c),
        Err(e) => Err(e@),
    }
}

/// The answer to an elevated run: the given words, or the error.
pub fn apply_answer(code: &Result<i32, String>, done: &str) -> (r: Result<String, String>)
    ensures
        match *code {
            Ok(c) => if c == 0 {
                r matches Ok(s) && s@ == done@
            } else {
                r matches Err(e) && e@ == "установка не удалась (код "@ + signed(c as int)
                    + ")"@
            },
            Err(e) => r matches Err(x) && x@ == e@,
        },
        match r {
            Ok(s) => Ok::<Seq<char>, Seq<char>>(s@),
            Err(e) => Err(e@),
        } == answer_of(end_of(*code), done@, "установка не удалась"@),
{
    proof {
        reveal_strlit("установка не удалась");
        reveal_strlit(" (код ");
        reveal_strlit("установка не удалась (код ");
        assert("установка не удалась"@ + " (код "@ =~= "установка не удалась (код "@);
    }
    match code {
        Ok(c) => if *c == 0 {
            Ok(done.to_owned())
        } else {
            Err(cat3("установка не удалась (код ", signed_text(*c).as_str(), ")"))
        },
        Err(e) => Err(e.clone()),
    }
}

/// The lines on a failed elevated run: what it has left in its log, after the given words.
pub fn apply_lines(code: &Result<i32, String>, words: &str, log: &[String]) -> (r: Vec<String>)
    ensures
        texts(r@) == (match *code {
            Ok(c) => if c == 0 {
                Seq::empty()
            } else {
                prefixed(words@, texts(log@))
            },
            Err(_) => Seq::empty(),
        }),
{
    let failed = match code {
        Ok(c) => *c != 0,
        Err(_) => false,
    };
    if failed {
        prefix_lines(words, log)
    } else {
        let v: Vec<String> = Vec::new();
        assert(texts(v@) =~= Seq::<Seq<char>>::empty());
        v
    }
}

/// The answer to writing a list with rights.
pub fn write_answer(code: &Result<i32, String>) -> (r: Result<(), String>)
    ensures
        match *code {
            Ok(c) => if c == 0 {
                r is Ok
            } else {
                r matches Err(e) && e@ == "запись не удалась (код "@ + signed(c as int) + ")"@
            },
            Err(e) => r matches Err(x) && x@ == e@,
        },
{
    match code {
        Ok(c) => if *c == 0 {
            Ok(())
        } else {
            Err(cat3("запись не удалась (код ", signed_text(*c).as_str(), ")"))
        },
        Err(e) => Err(e.clone()),
    }
}

// ── Replacing, under root ───────────────────────────────────────────────────

/// What is replaced, and what the service is started with afterwards.
#[derive(Debug)]
pub struct Replacement {
    /// The archive of the strategies, if they are replaced.
    pub fs_zip: Option<String>,
    pub fs_tag: String,
    /// The archive of the engine, if it is replaced.
    pub bv_zip: Option<String>,
    pub bv_tag: String,
    pub strategy: Option<String>,
    pub game_filter: bool,
}

/// An argument that may be left out: a hyphen and an empty text stand for nothing.
pub open spec fn optional_arg(args: Seq<Seq<char>>, i: int) -> Option<Seq<char>> {
    if i < args.len() && args[i] != "-"@ && args[i].len() > 0 {
        Some(args[i])
    } else {
        None
    }
}

/// An argument, empty where it is missing.
pub open spec fn arg_or_empty(args: Seq<Seq<char>>, i: int) -> Seq<char> {
    if i < args.len() {
        args[i]
    } else {
        ""@
    }
}

fn take_optional(args: &[String], i: usize) -> (r: Option<String>)
    ensures
        opt_text(r) == optional_arg(texts(args@), i as int),
{
    if i < args.len() {
        let a = args[i].as_str();
        assert(texts(args@)[i as int] == a@);
        if !same(a, "-") && !a.is_empty() {
            return Some(a.to_owned());
        }
    }
    None
}

fn take_arg(args: &[String], i: usize) -> (r: String)
    ensures
        r@ == arg_or_empty(texts(args@), i as int),
{
    if i < args.len() {
        args[i].clone()
    } else {
        "".to_owned()
    }
}

/// What is replaced, as a mathematical value.
#[verifier::ext_equal]
pub struct ReplacementView {
    pub fs_zip: Option<Seq<char>>,
    pub fs_tag: Seq<char>,
    pub bv_zip: Option<Seq<char>>,
    pub bv_tag: Seq<char>,
    pub strategy: Option<Seq<char>>,
    pub game_filter: bool,
}

impl View for Replacement {
    type V = ReplacementView;

    open spec fn view(&self) -> ReplacementView {
        ReplacementView {
            fs_zip: opt_text(self.fs_zip),
            fs_tag: self.fs_tag@,
            bv_zip: opt_text(self.bv_zip),
            bv_tag: self.bv_tag@,
            strategy: opt_text(self.strategy),
            game_filter: self.game_filter,
        }
    }
}

/// What arguments ask to be replaced on Linux; nothing where both sources are left out.
pub open spec fn linux_replacement(a: Seq<Seq<char>>) -> Option<ReplacementView> {
    let fs = optional_arg(a, 0);
    let bv = optional_arg(a, 2);
    if fs is None && bv is None {
        None
    } else {
        Some(
            ReplacementView {
                fs_zip: fs,
                fs_tag: arg_or_empty(a, 1),
                bv_zip: bv,
                bv_tag: arg_or_empty(a, 3),
                strategy: arg(a, 4),
                game_filter: arg(a, 5) == Some("1"@),
            },
        )
    }
}

/// Reads the arguments of the elevated run on Linux. Where neither source is replaced,
/// there is nothing to do, which is an error.
pub fn apply_update_linux(args: &[String]) -> (r: Result<Replacement, String>)
    ensures
        match linux_replacement(texts(args@)) {
            Some(p) => r matches Ok(q) && q@ == p,
            None => r matches Err(e) && e@ == "нечего заменять (оба источника пропущены)"@,
        },
{
    let fs_zip = take_optional(args, 0);
    let bv_zip = take_optional(args, 2);
    assert(texts(args@).len() == args@.len());
    if fs_zip.is_none() && bv_zip.is_none() {
        return Err("нечего заменять (оба источника пропущены)".to_owned());
    }
    let strategy = if args.len() > 4 {
        Some(args[4].clone())
    } else {
        None
    };
    let game_filter = args.len() > 5 && same(args[5].as_str(), "1");
    Ok(
        Replacement {
            fs_zip,
            fs_tag: take_arg(args, 1),
            bv_zip,
            bv_tag: take_arg(args, 3),
            strategy,
            game_filter,
        },
    )
}

/// What arguments ask to be replaced on Windows; nothing without an archive.
pub open spec fn windows_replacement(a: Seq<Seq<char>>) -> Option<ReplacementView> {
    if a.len() == 0 {
        None
    } else {
        Some(
            ReplacementView {
                fs_zip: Some(a[0]),
                fs_tag: arg_or_empty(a, 1),
                bv_zip: None,
                bv_tag: ""@,
                strategy: arg(a, 2),
                game_filter: arg(a, 3) == Some("1"@),
            },
        )
    }
}

/// Reads the arguments of the elevated run on Windows, where there is one archive.
pub fn apply_update_windows(args: &[String]) -> (r: Result<Replacement, String>)
    ensures
        match windows_replacement(texts(args@)) {
            Some(p) => r matches Ok(q) && q@ == p,
            None => r matches Err(e) && e@ == "нет пути к zip"@,
        },
{
    assert(texts(args@).len() == args@.len());
    if args.len() == 0 {
        return Err("нет пути к zip".to_owned());
    }
    let strategy = if args.len() > 2 {
        Some(args[2].clone())
    } else {
        None
    };
    let game_filter = args.len() > 3 && same(args[3].as_str(), "1");
    Ok(
        Replacement {
            fs_zip: Some(args[0].clone()),
            fs_tag: take_arg(args, 1),
            bv_zip: None,
            bv_tag: "".to_owned(),
            strategy,
            game_filter,
        },
    )
}

/// The elevated run replaces what the interface asked it to: the arguments that are built
/// for it are read back as the same archives, versions, strategy and switch. An archive
/// whose path is empty or a hyphen is left out.
pub proof fn replacement_is_understood(
    assets: bool,
    engine: bool,
    fs_zip: Seq<char>,
    fs_tag: Seq<char>,
    bv_zip: Seq<char>,
    bv_tag: Seq<char>,
    strategy: Option<Seq<char>>,
    gf: bool,
)
    requires
        assets || engine,
        assets ==> fs_zip.len() > 0 && fs_zip != "-"@,
        engine ==> bv_zip.len() > 0 && bv_zip != "-"@,
    ensures
        linux_replacement(
            linux_args(assets, engine, fs_zip, fs_tag, bv_zip, bv_tag, strategy, gf).skip(1),
        ) == Some(
            ReplacementView {
                fs_zip: if assets {
                    Some(fs_zip)
                } else {
                    None
                },
                fs_tag,
                bv_zip: if engine {
                    Some(bv_zip)
                } else {
                    None
                },
                bv_tag,
                strategy,
                game_filter: strategy is Some && gf,
            },
        ),
        windows_replacement(windows_args(fs_zip, fs_tag, strategy, gf).skip(1)) == Some(
            ReplacementView {
                fs_zip: Some(fs_zip),
                fs_tag,
                bv_zip: None,
                bv_tag: ""@,
                strategy,
                game_filter: strategy is Some && gf,
            },
        ),
{
    reveal_strlit("0");
    reveal_strlit("1");
    assert("0"@[0] == '0' && "1"@[0] == '1');
    let a = linux_args(assets, engine, fs_zip, fs_tag, bv_zip, bv_tag, strategy, gf);
    let r = a.skip(1);
    assert(r[0] == zip_arg(assets, fs_zip) && r[1] == fs_tag && r[2] == zip_arg(engine, bv_zip)
        && r[3] == bv_tag);
    let w = windows_args(fs_zip, fs_tag, strategy, gf).skip(1);
    assert(w[0] == fs_zip && w[1] == fs_tag);
    match strategy {
        Some(n) => {
            assert(r[4] == n && r[5] == switch_word(gf));
            assert(w[2] == n && w[3] == switch_word(gf));
        },
        None => {
            assert(r.len() == 4);
            assert(w.len() == 2);
        },
    }
}

/// How far the replacement has come.
#[derive(Clone, Copy, Debug, PartialEq, Eq, Structural)]
pub enum ApplyStage {
    /// Remove the service, so that nothing holds the files.
    RemoveService,
    /// Stop every engine and take all rules down.
    ResetEngine,
    /// Replace the strategies.
    Assets,
    /// Note their version.
    AssetsVersion,
    /// Replace the engine.
    Engine,
    /// Note its version.
    EngineVersion,
    /// Give the files to whoever called.
    FixOwner,
    /// Install the service again.
    Reinstall,
    /// Over, with this code.
    Exit(i32),
}

/// What is known of a replacement: which sources are replaced, whether the service was
/// there, and whether it is to be there again with a strategy.
#[derive(Clone, Copy, Debug, PartialEq, Eq, Structural)]
pub struct ApplyFacts {
    pub assets: bool,
    pub engine: bool,
    pub was_running: bool,
    pub has_strategy: bool,
}

/// The stage at which a replacement begins.
pub open spec fn first_apply_stage(f: ApplyFacts) -> ApplyStage {
    if f.was_running {
        ApplyStage::RemoveService
    } else {
        ApplyStage::ResetEngine
    }
}

/// What follows the strategies.
pub open spec fn after_assets(f: ApplyFacts) -> ApplyStage {
    if f.engine {
        ApplyStage::Engine
    } else {
        ApplyStage::FixOwner
    }
}

/// The stage after a stage that succeeded (`ok`) or failed. Only a failed replacement and a
/// failed installation end the whole with an error.
pub open spec fn apply_after(f: ApplyFacts, s: ApplyStage, ok: bool) -> ApplyStage {
    match s {
        ApplyStage::RemoveService => ApplyStage::ResetEngine,
        ApplyStage::ResetEngine => if f.assets {
            ApplyStage::Assets
        } else {
            after_assets(f)
        },
        ApplyStage::Assets => if ok {
            ApplyStage::AssetsVersion
        } else {
            ApplyStage::Exit(1)
        },
        ApplyStage::AssetsVersion => after_assets(f),
        ApplyStage::Engine => if ok {
            ApplyStage::EngineVersion
        } else {
            ApplyStage::Exit(1)
        },
        ApplyStage::EngineVersion => ApplyStage::FixOwner,
        ApplyStage::FixOwner => if f.was_running && f.has_strategy {
            ApplyStage::Reinstall
        } else {
            ApplyStage::Exit(0)
        },
        ApplyStage::Reinstall => if ok {
            ApplyStage::Exit(0)
        } else {
            ApplyStage::Exit(1)
        },
        ApplyStage::Exit(c) => ApplyStage::Exit(c),
    }
}

/// The stage at which a replacement begins.
pub fn apply_begin(f: ApplyFacts) -> (r: ApplyStage)
    ensures
        r == first_apply_stage(f),
{
    if f.was_running {
        ApplyStage::RemoveService
    } else {
        ApplyStage::ResetEngine
    }
}

/// The stage after a stage that succeeded (`ok`) or failed.
pub fn apply_next(f: ApplyFacts, s: ApplyStage, ok: bool) -> (r: ApplyStage)
    ensures
        r == apply_after(f, s, ok),
{
    let behind = if f.engine {
        ApplyStage::Engine
    } else {
        ApplyStage::FixOwner
    };
    match s {
        ApplyStage::RemoveService => ApplyStage::ResetEngine,
        ApplyStage::ResetEngine => if f.assets {
            ApplyStage::Assets
        } else {
            behind
        },
        ApplyStage::Assets => if ok {
            ApplyStage::AssetsVersion
        } else {
            ApplyStage::Exit(1)
        },
        ApplyStage::AssetsVersion => behind,
        ApplyStage::Engine => if ok {
            ApplyStage::EngineVersion
        } else {
            ApplyStage::Exit(1)
        },
        ApplyStage::EngineVersion => ApplyStage::FixOwner,
        ApplyStage::FixOwner => if f.was_running && f.has_strategy {
            ApplyStage::Reinstall
        } else {
            ApplyStage::Exit(0)
        },
        ApplyStage::Reinstall => if ok {
            ApplyStage::Exit(0)
        } else {
            ApplyStage::Exit(1)
        },
        ApplyStage::Exit(c) => ApplyStage::Exit(c),
    }
}

/// The stage that a replacement has reached, where `oks` says which of its stages so far
/// succeeded.
pub open spec fn apply_run(f: ApplyFacts, oks: Seq<bool>) -> ApplyStage
    decreases oks.len(),
{
    if oks.len() == 0 {
        first_apply_stage(f)
    } else {
        apply_after(f, apply_run(f, oks.drop_last()), oks.last())
    }
}

/// How far a stage is from the end.
pub open spec fn apply_rest(s: ApplyStage) -> nat {
    match s {
        ApplyStage::RemoveService => 8,
        ApplyStage::ResetEngine => 7,
        ApplyStage::Assets => 6,
        ApplyStage::AssetsVersion => 5,
        ApplyStage::Engine => 4,
        ApplyStage::EngineVersion => 3,
        ApplyStage::FixOwner => 2,
        ApplyStage::Reinstall => 1,
        ApplyStage::Exit(_) => 0,
    }
}

/// A replacement ends, and no file is replaced before every engine is stopped: each stage
/// comes nearer to the end, and a stage that replaces something is only reached from the
/// reset or from a later stage.
pub proof fn replacement_stops_the_engine_first(f: ApplyFacts, s: ApplyStage, ok: bool)
    ensures
        s !is Exit ==> apply_rest(apply_after(f, s, ok)) < apply_rest(s),
        apply_after(f, s, ok) is Assets ==> s is ResetEngine,
        apply_after(f, s, ok) is Engine ==> s is ResetEngine || s is AssetsVersion,
        first_apply_stage(f) is RemoveService || first_apply_stage(f) is ResetEngine,
{
}

/// Whether the strategies, if they are to be replaced, are replaced at a stage.
pub open spec fn behind_assets(s: ApplyStage) -> bool {
    match s {
        ApplyStage::AssetsVersion => true,
        ApplyStage::Engine => true,
        ApplyStage::EngineVersion => true,
        ApplyStage::FixOwner => true,
        ApplyStage::Reinstall => true,
        ApplyStage::Exit(c) => c == 0,
        _ => false,
    }
}

/// Whether the engine, if it is to be replaced, is replaced at a stage.
pub open spec fn behind_engine(s: ApplyStage) -> bool {
    match s {
        ApplyStage::EngineVersion => true,
        ApplyStage::FixOwner => true,
        ApplyStage::Reinstall => true,
        ApplyStage::Exit(c) => c == 0,
        _ => false,
    }
}

/// Whether a stage was reached in a run, and succeeded.
pub open spec fn carried_out(f: ApplyFacts, oks: Seq<bool>, s: ApplyStage) -> bool {
    exists|k: int| 0 <= k < oks.len() && #[trigger] apply_run(f, oks.take(k)) == s && oks[k]
}

proof fn lemma_carried_over(f: ApplyFacts, oks: Seq<bool>, s: ApplyStage)
    requires
        oks.len() > 0,
        carried_out(f, oks.drop_last(), s) || (apply_run(f, oks.drop_last()) == s && oks.last()),
    ensures
        carried_out(f, oks, s),
{
    let p = oks.drop_last();
    if carried_out(f, p, s) {
        let k = choose|k: int| 0 <= k < p.len() && #[trigger] apply_run(f, p.take(k)) == s && p[k];
        assert(p.take(k) =~= oks.take(k));
        assert(apply_run(f, oks.take(k)) == s && oks[k]);
    } else {
        assert(p =~= oks.take(oks.len() - 1));
        assert(apply_run(f, oks.take(oks.len() - 1)) == s);
    }
}

proof fn lemma_behind(f: ApplyFacts, oks: Seq<bool>)
    ensures
        f.assets && behind_assets(apply_run(f, oks)) ==> carried_out(f, oks, ApplyStage::Assets),
        f.engine && behind_engine(apply_run(f, oks)) ==> carried_out(f, oks, ApplyStage::Engine),
        f.was_running && f.has_strategy && apply_run(f, oks) == ApplyStage::Exit(0)
            ==> carried_out(f, oks, ApplyStage::Reinstall),
    decreases oks.len(),
{
    if oks.len() > 0 {
        let p = oks.drop_last();
        let before = apply_run(f, p);
        lemma_behind(f, p);
        if carried_out(f, p, ApplyStage::Assets) || (before is Assets && oks.last()) {
            lemma_carried_over(f, oks, ApplyStage::Assets);
        }
        if carried_out(f, p, ApplyStage::Engine) || (before is Engine && oks.last()) {
            lemma_carried_over(f, oks, ApplyStage::Engine);
        }
        if carried_out(f, p, ApplyStage::Reinstall) || (before is Reinstall && oks.last()) {
            lemma_carried_over(f, oks, ApplyStage::Reinstall);
        }
    }
}

/// A replacement that reports success has done all that it was for, whatever its steps gave
/// back: each source that was to be replaced was replaced, and a service that was there is
/// there again with the strategy.
pub proof fn success_means_all_is_replaced(f: ApplyFacts, oks: Seq<bool>)
    requires
        apply_run(f, oks) == ApplyStage::Exit(0),
    ensures
        f.assets ==> carried_out(f, oks, ApplyStage::Assets),
        f.engine ==> carried_out(f, oks, ApplyStage::Engine),
        f.was_running && f.has_strategy ==> carried_out(f, oks, ApplyStage::Reinstall),
{
    lemma_behind(f, oks);
}

// ── The first installation ──────────────────────────────────────────────────

/// The lines before each of the two downloads, and the answer in the end, by the two tags.
pub fn download_core_linux(fs_tag: &str, bv_tag: &str) -> (r: (String, String, String))
    ensures
        r.0@ == "ядро: качаю ассеты Flowseal "@ + fs_tag@ + "…"@,
        r.1@ == "ядро: качаю nfqws "@ + bv_tag@ + "…"@,
        r.2@ == "установлено: Flowseal "@ + fs_tag@ + " + nfqws "@ + bv_tag@,
{
    let mut done = cat3("установлено: Flowseal ", fs_tag, " + nfqws ");
    done.append(bv_tag);
    (
        cat3("ядро: качаю ассеты Flowseal ", fs_tag, "…"),
        cat3("ядро: качаю nfqws ", bv_tag, "…"),
        done,
    )
}

/// What follows an installation without rights on Windows: the answer, or a line on why it
/// is tried with rights.
pub fn download_core_windows(direct: Result<(), String>, tag: &str) -> (r: Result<String, String>)
    ensures
        direct is Ok ==> (r matches Ok(s) && s@ == "установлено "@ + tag@),
        direct matches Err(e) ==> (r matches Err(s) && s@ == "ядро: прямая установка не вышла ("@
            + e@ + "), пробую с UAC…"@),
{
    match direct {
        Ok(()) => Ok(cat("установлено ", tag)),
        Err(e) => Err(
            cat3("ядро: прямая установка не вышла (", e.as_str(), "), пробую с UAC…"),
        ),
    }
}

/// What the elevated run leaves in its log where a stage failed; nothing for a stage whose
/// failure does not matter.
pub open spec fn apply_complaint(s: ApplyStage, error: Seq<char>, windows: bool) -> Option<
    Seq<char>,
> {
    match s {
        ApplyStage::Assets => Some(
            (if windows {
                "замена ядра: "@
            } else {
                "замена ассетов Flowseal: "@
            }) + error,
        ),
        ApplyStage::AssetsVersion => Some(
            (if windows {
                "запись версии: "@
            } else {
                "запись версии Flowseal: "@
            }) + error,
        ),
        ApplyStage::Engine => Some("замена nfqws: "@ + error),
        ApplyStage::EngineVersion => Some("запись версии nfqws: "@ + error),
        ApplyStage::Reinstall => Some("перезапуск службы: "@ + error),
        _ => None,
    }
}

/// What the elevated run leaves in its log where a stage failed.
pub fn apply_error(s: ApplyStage, error: &str, windows: bool) -> (r: Option<String>)
    ensures
        opt_text(r) == apply_complaint(s, error@, windows),
{
    match s {
        ApplyStage::Assets => Some(
            cat(
                if windows {
                    "замена ядра: "
                } else {
                    "замена ассетов Flowseal: "
                },
                error,
            ),
        ),
        ApplyStage::AssetsVersion => Some(
            cat(
                if windows {
                    "запись версии: "
                } else {
                    "запись версии Flowseal: "
                },
                error,
            ),
        ),
        ApplyStage::Engine => Some(cat("замена nfqws: ", error)),
        ApplyStage::EngineVersion => Some(cat("запись версии nfqws: ", error)),
        ApplyStage::Reinstall => Some(cat("перезапуск службы: ", error)),
        _ => None,
    }
}

// ── Laws ────────────────────────────────────────────────────────────────────

/// The share of a download is a percentage, rounded down: nothing is none of it, the whole
/// is a hundred, and between them it never says more than has come in, nor less by a whole
/// percent.
pub proof fn shares_are_percentages(done: u64, total: u64)
    requires
        total > 0,
    ensures
        percent(0, total) == 0,
        percent(total, total) == 100,
        percent(done, total) * total <= done * 100,
        done * 100 < (percent(done, total) + 1) * total,
{
    let a = done * 100;
    let t = total as int;
    assert(0int / t == 0) by (nonlinear_arith)
        requires
            t > 0,
    ;
    assert((t * 100) / t == 100) by (nonlinear_arith)
        requires
            t > 0,
    ;
    assert((a / t) * t <= a && a < (a / t + 1) * t) by (nonlinear_arith)
        requires
            t > 0,
            a >= 0,
    ;
}

/// A download misses no report: one that has come a fifth further than the last report is
/// reported, and what is reported is a share that the download really had.
pub proof fn every_fifth_is_reported(last_pct: int, dones: Seq<u64>, total: u64, k: int)
    requires
        0 <= k < dones.len(),
    ensures
        percent(dones[k], total) >= last_pct + 20 ==> reported(last_pct, dones, total).len() > 0
            && percent(dones[k], total) < reported(last_pct, dones, total).last() + 20,
        forall|i: int|
            0 <= i < reported(last_pct, dones, total).len() ==> exists|j: int|
                0 <= j < dones.len() && #[trigger] percent(dones[j], total) == #[trigger] reported(
                    last_pct,
                    dones,
                    total,
                )[i],
    decreases dones.len(),
{
    let p = percent(dones[0], total);
    let t = dones.skip(1);
    let all = reported(last_pct, dones, total);
    let from = if p >= last_pct + 20 {
        p
    } else {
        last_pct
    };
    let rest = reported(from, t, total);
    if t.len() > 0 {
        every_fifth_is_reported(
            from,
            t,
            total,
            if k > 0 {
                k - 1
            } else {
                0
            },
        );
        if k > 0 {
            assert(t[k - 1] == dones[k]);
        }
    } else {
        assert(rest.len() == 0);
    }
    reports_are_a_fifth_apart(from, t, total);
    lemma_reports_ascend(from, t, total);
    if p >= last_pct + 20 {
        assert(all =~= seq![p] + rest);
        if rest.len() > 0 {
            assert(all.last() == rest.last());
        } else {
            assert(all.last() == p);
        }
    }
    assert forall|i: int| 0 <= i < all.len() implies exists|j: int|
        0 <= j < dones.len() && #[trigger] percent(dones[j], total) == #[trigger] all[i] by {
        if p >= last_pct + 20 && i == 0 {
            assert(percent(dones[0], total) == all[0]);
        } else {
            let x = if p >= last_pct + 20 {
                i - 1
            } else {
                i
            };
            assert(all[i] == rest[x]);
            let j = choose|j: int|
                0 <= j < t.len() && #[trigger] percent(t[j], total) == #[trigger] rest[x];
            assert(t[j] == dones[j + 1]);
            assert(percent(dones[j + 1], total) == all[i]);
        }
    }
}

proof fn lemma_reports_ascend(last_pct: int, dones: Seq<u64>, total: u64)
    ensures
        reported(last_pct, dones, total).len() > 0 ==> reported(last_pct, dones, total).last()
            >= last_pct + 20,
    decreases dones.len(),
{
    if dones.len() > 0 {
        let p = percent(dones[0], total);
        let t = dones.skip(1);
        if p >= last_pct + 20 {
            lemma_reports_ascend(p, t, total);
            let rest = reported(p, t, total);
            if rest.len() > 0 {
                assert((seq![p] + rest).last() == rest.last());
            } else {
                assert((seq![p] + rest).last() == p);
            }
        } else {
            lemma_reports_ascend(last_pct, t, total);
        }
    }
}

/// A source is replaced exactly where another version is out, and where none is installed:
/// after it has been replaced by the latest version there is nothing left to do.
pub proof fn only_another_version_is_fetched(local: Seq<char>, latest: Seq<char>)
    ensures
        outdated(None, latest),
        !outdated(Some(latest), latest),
        outdated(Some(local), latest) <==> local != latest,
{
}

/// What is said of an update names what it replaces, and nothing else: a line for each
/// source that is replaced, with the new version and the old one, and in the end the two
/// sources with their versions, joined where both were replaced.
pub proof fn an_update_says_what_it_replaces(
    fs: bool,
    ft: Seq<char>,
    fl: Option<Seq<char>>,
    bv: bool,
    bt: Seq<char>,
    bl: Option<Seq<char>>,
)
    ensures
        notes_of(fs, ft, fl, bv, bt, bl).len() == (if fs {
            1int
        } else {
            0
        }) + (if bv {
            1int
        } else {
            0
        }),
        fs ==> begins(notes_of(fs, ft, fl, bv, bt, bl)[0], "обновление: Flowseal "@ + ft),
        bv ==> begins(notes_of(fs, ft, fl, bv, bt, bl).last(), "обновление: nfqws "@ + bt),
        done_of(true, ft, true, bt) == "обновлено: "@ + ("Flowseal "@ + ft + " + "@ + ("nfqws "@
            + bt)),
        done_of(true, ft, false, bt) == "обновлено: "@ + ("Flowseal "@ + ft),
        done_of(false, ft, true, bt) == "обновлено: "@ + ("nfqws "@ + bt),
        begins(done_of(false, ft, false, bt), "уже актуально"@),
        forall|what: Seq<char>, v: Seq<char>|
            #[trigger] note_of(what, ft, Some(v)) == what + ft + " (текущая: "@ + v + ")"@,
{
    reveal_with_fuel(joined, 3);
    let f = "Flowseal "@ + ft;
    let b = "nfqws "@ + bt;
    assert(parts_of(true, ft, true, bt) =~= seq![f, b]);
    assert(parts_of(true, ft, false, bt) =~= seq![f]);
    assert(parts_of(false, ft, true, bt) =~= seq![b]);
    assert(seq![f, b].drop_last() =~= seq![f]);
    assert(seq![f].drop_last() =~= Seq::<Seq<char>>::empty());
    assert(seq![b].drop_last() =~= Seq::<Seq<char>>::empty());
    assert(seq![f, b].skip(1) =~= seq![b]);
    assert(joined(seq![f, b], " + "@) =~= f + " + "@ + b);
    assert(joined(seq![f], " + "@) =~= f);
    assert(joined(seq![b], " + "@) =~= b);
    let x = note_of("обновление: Flowseal "@, ft, fl);
    let y = note_of("обновление: nfqws "@, bt, bl);
    let p = "обновление: Flowseal "@ + ft;
    let q = "обновление: nfqws "@ + bt;
    assert(x.take(p.len() as int) =~= p);
    assert(y.take(q.len() as int) =~= q);
    reveal_strlit("уже актуально");
    reveal_strlit("уже актуально (Flowseal ");
    let d = done_of(false, ft, false, bt);
    assert(d.take("уже актуально"@.len() as int) =~= "уже актуально"@);
}

/// The stages of a replacement in which nothing fails, in their order: the service is
/// removed where it was there, every engine is stopped, what is to be replaced is replaced
/// as it would be without rights, the files are given back, and the service is installed
/// again where it was there and a strategy is named.
pub open spec fn smooth_stages(f: ApplyFacts) -> Seq<ApplyStage> {
    (if f.was_running {
        seq![ApplyStage::RemoveService]
    } else {
        Seq::empty()
    }) + seq![ApplyStage::ResetEngine] + direct_stages(f.assets, f.engine) + seq![
        ApplyStage::FixOwner,
    ] + (if f.was_running && f.has_strategy {
        seq![ApplyStage::Reinstall]
    } else {
        Seq::empty()
    })
}

/// A replacement in which nothing fails runs through its stages in their order, leaves none
/// out, adds none, and ends with success.
pub proof fn a_smooth_replacement_runs_through(f: ApplyFacts, k: int)
    requires
        0 <= k <= smooth_stages(f).len(),
    ensures
        k < smooth_stages(f).len() ==> apply_run(f, Seq::new(k as nat, |i: int| true))
            == smooth_stages(f)[k],
        k == smooth_stages(f).len() ==> apply_run(f, Seq::new(k as nat, |i: int| true))
            == ApplyStage::Exit(0),
    decreases k,
{
    let oks = Seq::new(k as nat, |i: int| true);
    if k > 0 {
        a_smooth_replacement_runs_through(f, k - 1);
        assert(oks.drop_last() =~= Seq::new((k - 1) as nat, |i: int| true));
        lemma_stage_follows(f, k - 1);
    }
}

proof fn lemma_stage_follows(f: ApplyFacts, k: int)
    requires
        0 <= k < smooth_stages(f).len(),
    ensures
        apply_after(f, smooth_stages(f)[k], true) == (if k + 1 < smooth_stages(f).len() {
            smooth_stages(f)[k + 1]
        } else {
            ApplyStage::Exit(0)
        }),
{
    let a: int = if f.was_running {
        1
    } else {
        0
    };
    let d = direct_stages(f.assets, f.engine);
    let n = d.len() as int;
    let s = smooth_stages(f);
    assert(f.was_running ==> s[0] == ApplyStage::RemoveService);
    assert(s[a] == ApplyStage::ResetEngine);
    assert forall|i: int| 0 <= i < n implies #[trigger] d[i] == s[a + 1 + i] by {}
    assert(s[a + 1 + n] == ApplyStage::FixOwner);
    assert(f.was_running && f.has_strategy ==> s[a + 2 + n] == ApplyStage::Reinstall);
    assert(f.assets ==> d[0] == ApplyStage::Assets && d[1] == ApplyStage::AssetsVersion);
    assert(f.assets && f.engine ==> d[2] == ApplyStage::Engine && d[3]
        == ApplyStage::EngineVersion);
    assert(!f.assets && f.engine ==> d[0] == ApplyStage::Engine && d[1]
        == ApplyStage::EngineVersion);
    if a < k < a + 1 + n {
        assert(d[k - a - 1] == s[k]);
        if k < a + n {
            assert(d[k - a] == s[k + 1]);
        }
    }
    if k == a && n > 0 {
        assert(d[0] == s[a + 1]);
    }
}

/// A failure ends a replacement exactly where something could not be replaced or the
/// service could not be installed again: then with an error, and a word in the log. A
/// failure of another stage changes nothing of what follows.
pub proof fn only_a_failed_replacement_ends_it(
    f: ApplyFacts,
    s: ApplyStage,
    error: Seq<char>,
    windows: bool,
)
    requires
        s !is Exit,
    ensures
        s is Assets || s is Engine || s is Reinstall ==> apply_after(f, s, false)
            == ApplyStage::Exit(1),
        !(s is Assets || s is Engine || s is Reinstall) ==> apply_after(f, s, false)
            == apply_after(f, s, true),
        apply_after(f, s, false) == ApplyStage::Exit(1) ==> apply_complaint(s, error, windows)
            is Some,
        apply_complaint(s, error, windows) is None <==> s is RemoveService || s is ResetEngine
            || s is FixOwner,
        apply_complaint(s, error, windows) matches Some(line) ==> ends(line, error),
{
    if apply_complaint(s, error, windows) is Some {
        let line = apply_complaint(s, error, windows)->0;
        assert(line.skip(line.len() - error.len()) =~= error);
    }
}

/// Without rights a source is replaced and then its version noted, the strategies before
/// the engine, and only what the plan names is touched.
pub proof fn the_version_is_noted_after_the_files(assets: bool, engine: bool, i: int)
    ensures
        ({
            let d = direct_stages(assets, engine);
            &&& d.contains(ApplyStage::Assets) <==> assets
            &&& d.contains(ApplyStage::Engine) <==> engine
            &&& 0 <= i < d.len() ==> {
                &&& d[i] is Assets ==> i + 1 < d.len() && d[i + 1] is AssetsVersion
                &&& d[i] is Engine ==> i + 1 < d.len() && d[i + 1] is EngineVersion
                &&& d[i] is AssetsVersion ==> i > 0 && d[i - 1] is Assets
                &&& d[i] is EngineVersion ==> i > 0 && d[i - 1] is Engine
            }
            &&& assets && engine ==> d[0] is Assets && d[2] is Engine
        }),
{
    let d = direct_stages(assets, engine);
    if assets {
        assert(d[0] == ApplyStage::Assets);
    }
    if engine {
        assert(d[d.len() - 2] == ApplyStage::Engine);
    }
}

/// An elevated run has succeeded exactly where it ended with the code zero; another code is
/// told in the error, and so is why it could not begin.
pub proof fn only_zero_is_success(c: i32, e: Seq<char>, done: Seq<char>, failed: Seq<char>)
    ensures
        answer_of(Ok(c), done, failed) is Ok <==> c == 0,
        answer_of(Ok(0), done, failed) == Ok::<Seq<char>, Seq<char>>(done),
        answer_of(Err(e), done, failed) == Err::<Seq<char>, Seq<char>>(e),
        c != 0 ==> begins(answer_of(Ok(c), done, failed)->Err_0, failed) && ends(
            answer_of(Ok(c), done, failed)->Err_0,
            signed(c as int) + ")"@,
        ),
{
    if c != 0 {
        let line = answer_of(Ok(c), done, failed)->Err_0;
        let tail = signed(c as int) + ")"@;
        assert(line.take(failed.len() as int) =~= failed);
        assert(line.skip(line.len() - tail.len()) =~= tail);
    }
}

} // verus!
