//! The desktop entry and the icons of the program, in the directories of the user.
use vstd::prelude::*;

use crate::text::{cat, cat3, join_path, starts_with};

verus! {

use crate::text::{at, begins, below, contains, ends, opt_str, opt_text};

/// The name of the entry, of the icons and of the window, by which they are matched.
pub const APP_ID: &'static str = "zaprust";

/// The data directory of the user: `XDG_DATA_HOME` where it is absolute, else
/// `~/.local/share`.
pub open spec fn data_home_of(xdg: Option<Seq<char>>, home: Option<Seq<char>>) -> Option<
    Seq<char>,
> {
    if xdg matches Some(d) && begins(d, "/"@) {
        xdg
    } else {
        match home {
            Some(h) => Some(below(below(h, ".local"@), "share"@)),
            None => None,
        }
    }
}

/// The data directory of the user.
pub fn data_home(xdg: Option<&str>, home: Option<&str>) -> (r: Option<String>)
    ensures
        opt_text(r) == data_home_of(opt_str(xdg), opt_str(home)),
{
    match xdg {
        Some(d) => {
            if starts_with(d, "/") {
                return Some(d.to_owned());
            }
        },
        None => {},
    }
    match home {
        Some(h) => Some(join_path(join_path(h, ".local").as_str(), "share")),
        None => None,
    }
}

/// Whether a file that holds `current` is to be written: it is not there, or it holds
/// something else.
pub open spec fn outdated(current: Option<Seq<u8>>, bytes: Seq<u8>) -> bool {
    current != Some(bytes)
}

/// What a file holds, as a mathematical value.
pub open spec fn held(current: Option<&[u8]>) -> Option<Seq<u8>> {
    match current {
        Some(c) => Some(c@),
        None => None,
    }
}

/// Whether a file is to be written: it is not there, or it holds something else.
pub fn write_if_changed(current: Option<&[u8]>, bytes: &[u8]) -> (r: bool)
    ensures
        r == outdated(held(current), bytes@),
{
    match current {
        None => true,
        Some(c) => {
            if c.len() != bytes.len() {
                return true;
            }
            let mut i: usize = 0;
            while i < c.len()
                invariant
                    i <= c@.len(),
                    c@.len() == bytes@.len(),
                    current == Some(c),
                    forall|k: int| 0 <= k < i ==> c@[k] == bytes@[k],
                decreases c@.len() - i,
            {
                if c[i] != bytes[i] {
                    return true;
                }
                i += 1;
            }
            assert(c@ =~= bytes@);
            false
        },
    }
}

/// What stands before the path of the program in the entry.
pub const ENTRY_HEAD: &'static str = "[Desktop Entry]\nType=Application\nName=Zaprust\nGenericName=DPI bypass\nComment=GUI для обхода DPI-блокировок (поверх zapret)\nComment[en]=Lightweight GUI for DPI bypass (zapret)\nExec=\"";

/// The desktop entry. The path of the program stands in quotation marks, since it may
/// hold spaces.
pub open spec fn entry_of(exec: Seq<char>) -> Seq<char> {
    ENTRY_HEAD@ + exec + "\"\nIcon="@ + APP_ID@
        + "\nTerminal=false\nCategories=Network;\nKeywords=dpi;zapret;nfqws;bypass;\nStartupWMClass="@
        + APP_ID@ + "\n"@
}

/// The desktop entry.
pub fn desktop_entry(exec: &str) -> (r: String)
    ensures
        r@ == entry_of(exec@),
{
    let mut s = cat3(ENTRY_HEAD, exec, "\"\nIcon=");
    s.append(APP_ID);
    s.append(
        "\nTerminal=false\nCategories=Network;\nKeywords=dpi;zapret;nfqws;bypass;\nStartupWMClass=",
    );
    s.append(APP_ID);
    s.append("\n");
    s
}

/// Where the files of the integration go.
#[derive(Debug)]
pub struct Integration {
    pub icon_png: String,
    pub icon_svg: String,
    pub app_dir: String,
    pub entry: String,
    /// The text of the entry, where the path of the program is known.
    pub entry_text: Option<String>,
}

/// Where the files of the integration go, as a mathematical value.
#[verifier::ext_equal]
pub struct IntegrationView {
    pub icon_png: Seq<char>,
    pub icon_svg: Seq<char>,
    pub app_dir: Seq<char>,
    pub entry: Seq<char>,
    pub entry_text: Option<Seq<char>>,
}

impl View for Integration {
    type V = IntegrationView;

    open spec fn view(&self) -> IntegrationView {
        IntegrationView {
            icon_png: self.icon_png@,
            icon_svg: self.icon_svg@,
            app_dir: self.app_dir@,
            entry: self.entry@,
            entry_text: opt_text(self.entry_text),
        }
    }
}

/// What is to be written for the desktop, or a warning where the data directory is not
/// known. Nothing at all for root: this is for the user.
#[derive(Debug)]
pub enum Plan {
    Nothing,
    Warn(String),
    Write(Integration),
}

/// What is to be written for the desktop, as a mathematical value.
pub enum PlanView {
    Nothing,
    Warn(Seq<char>),
    Write(IntegrationView),
}

impl View for Plan {
    type V = PlanView;

    open spec fn view(&self) -> PlanView {
        match self {
            Plan::Nothing => PlanView::Nothing,
            Plan::Warn(w) => PlanView::Warn(w@),
            Plan::Write(i) => PlanView::Write(i@),
        }
    }
}

/// Where the files of the integration go below the data directory.
pub open spec fn integration(data: Seq<char>, exec: Option<Seq<char>>) -> IntegrationView {
    IntegrationView {
        icon_png: below(below(data, "icons/hicolor/256x256/apps"@), APP_ID@ + ".png"@),
        icon_svg: below(below(data, "icons/hicolor/scalable/apps"@), APP_ID@ + ".svg"@),
        app_dir: below(data, "applications"@),
        entry: below(below(data, "applications"@), APP_ID@ + ".desktop"@),
        entry_text: match exec {
            Some(e) => Some(entry_of(e)),
            None => None,
        },
    }
}

/// What is to be written for the desktop.
pub open spec fn planned(
    elevated: bool,
    data: Option<Seq<char>>,
    exec: Option<Seq<char>>,
) -> PlanView {
    if elevated {
        PlanView::Nothing
    } else {
        match data {
            None => PlanView::Warn("не определить XDG data-каталог (нет HOME)"@),
            Some(d) => PlanView::Write(integration(d, exec)),
        }
    }
}

/// What is to be written for the desktop. `data` is the data directory of the user, `exec`
/// the path of the program.
pub fn integrate(elevated: bool, data: Option<&str>, exec: Option<&str>) -> (r: Plan)
    ensures
        r@ == planned(elevated, opt_str(data), opt_str(exec)),
{
    if elevated {
        return Plan::Nothing;
    }
    match data {
        None => Plan::Warn("не определить XDG data-каталог (нет HOME)".to_owned()),
        Some(d) => {
            let app_dir = join_path(d, "applications");
            let entry = join_path(app_dir.as_str(), cat(APP_ID, ".desktop").as_str());
            Plan::Write(
                Integration {
                    icon_png: join_path(
                        join_path(d, "icons/hicolor/256x256/apps").as_str(),
                        cat(APP_ID, ".png").as_str(),
                    ),
                    icon_svg: join_path(
                        join_path(d, "icons/hicolor/scalable/apps").as_str(),
                        cat(APP_ID, ".svg").as_str(),
                    ),
                    app_dir,
                    entry,
                    entry_text: match exec {
                        Some(e) => Some(desktop_entry(e)),
                        None => None,
                    },
                },
            )
        },
    }
}

/// Whether the desktop is to read its entries anew: some file was written.
pub fn refreshes(written: &[bool]) -> (r: bool)
    ensures
        r == written@.contains(true),
{
    let mut i: usize = 0;
    while i < written.len()
        invariant
            i <= written@.len(),
            forall|k: int| 0 <= k < i ==> !(#[trigger] written@[k]),
        decreases written@.len() - i,
    {
        if written[i] {
            assert(written@[i as int]);
            return true;
        }
        i += 1;
    }
    false
}

// ── Doing it twice ──────────────────────────────────────────────────────────

/// Files by their paths.
pub type Disk = Map<Seq<char>, Seq<u8>>;

/// What a file of the disk holds.
pub open spec fn on_disk(disk: Disk, path: Seq<char>) -> Option<Seq<u8>> {
    if disk.dom().contains(path) {
        Some(disk[path])
    } else {
        None
    }
}

/// The files of a plan, with what they are to hold: the two icons, and the entry where its
/// text is known.
pub open spec fn wanted(plan: PlanView, png: Seq<u8>, svg: Seq<u8>) -> Seq<(Seq<char>, Seq<u8>)> {
    match plan {
        PlanView::Write(i) => seq![(i.icon_png, png), (i.icon_svg, svg)] + (match i.entry_text {
            Some(t) => seq![(i.entry, vstd::utf8::encode_utf8(t))],
            None => Seq::empty(),
        }),
        _ => Seq::empty(),
    }
}

/// The disk once the files are brought up to date, one after another.
pub open spec fn updated(disk: Disk, files: Seq<(Seq<char>, Seq<u8>)>) -> Disk
    decreases files.len(),
{
    if files.len() == 0 {
        disk
    } else {
        let before = updated(disk, files.drop_last());
        let f = files.last();
        if outdated(on_disk(before, f.0), f.1) {
            before.insert(f.0, f.1)
        } else {
            before
        }
    }
}

/// Which of the files are written in this.
pub open spec fn written(disk: Disk, files: Seq<(Seq<char>, Seq<u8>)>) -> Seq<bool>
    decreases files.len(),
{
    if files.len() == 0 {
        Seq::empty()
    } else {
        let before = updated(disk, files.drop_last());
        let f = files.last();
        written(disk, files.drop_last()).push(outdated(on_disk(before, f.0), f.1))
    }
}

/// Every file holds what it is to hold.
pub open spec fn up_to_date(disk: Disk, files: Seq<(Seq<char>, Seq<u8>)>) -> bool {
    forall|i: int|
        0 <= i < files.len() ==> on_disk(disk, (#[trigger] files[i]).0) == Some(files[i].1)
}

/// No two files have the same path.
pub open spec fn apart(files: Seq<(Seq<char>, Seq<u8>)>) -> bool {
    forall|i: int, j: int|
        0 <= i < j < files.len() ==> (#[trigger] files[i]).0 != (#[trigger] files[j]).0
}

proof fn lemma_updated(disk: Disk, files: Seq<(Seq<char>, Seq<u8>)>)
    requires
        apart(files),
    ensures
        up_to_date(updated(disk, files), files),
    decreases files.len(),
{
    if files.len() > 0 {
        let first = files.drop_last();
        lemma_updated(disk, first);
        let d = updated(disk, files);
        assert forall|i: int| 0 <= i < files.len() implies on_disk(d, (#[trigger] files[i]).0)
            == Some(files[i].1) by {
            if i < first.len() {
                assert(first[i] == files[i]);
                assert(files[i].0 != files[files.len() - 1].0);
            }
        }
    }
}

proof fn lemma_up_to_date(disk: Disk, files: Seq<(Seq<char>, Seq<u8>)>)
    requires
        up_to_date(disk, files),
    ensures
        updated(disk, files) == disk,
        forall|i: int| 0 <= i < written(disk, files).len() ==> !(#[trigger] written(disk, files)[i]),
    decreases files.len(),
{
    if files.len() > 0 {
        let first = files.drop_last();
        assert forall|i: int| 0 <= i < first.len() implies on_disk(disk, (#[trigger] first[i]).0)
            == Some(first[i].1) by {
            assert(first[i] == files[i]);
        }
        lemma_up_to_date(disk, first);
        assert(files[files.len() - 1] == files.last());
        let w = written(disk, files);
        assert forall|i: int| 0 <= i < w.len() implies !(#[trigger] w[i]) by {
            if i < w.len() - 1 {
                assert(w[i] == written(disk, first)[i]);
            }
        }
    }
}

proof fn lemma_last_two(dir: Seq<char>, name: Seq<char>)
    requires
        name.len() >= 2,
    ensures
        below(dir, name).len() >= 2,
        below(dir, name).last() == name.last(),
        below(dir, name)[below(dir, name).len() - 2] == name[name.len() - 2],
{
}

/// Integrating a second time changes nothing: once the files of a plan are up to date, no
/// file is written and the desktop is not asked to read its entries anew. For root no file
/// is written at all.
pub proof fn integrating_twice_changes_nothing(
    elevated: bool,
    data: Option<Seq<char>>,
    exec: Option<Seq<char>>,
    png: Seq<u8>,
    svg: Seq<u8>,
    disk: Disk,
)
    ensures
        ({
            let files = wanted(planned(elevated, data, exec), png, svg);
            let once = updated(disk, files);
            &&& up_to_date(once, files)
            &&& updated(once, files) == once
            &&& !written(once, files).contains(true)
            &&& elevated ==> once == disk && !written(disk, files).contains(true)
        }),
{
    let files = wanted(planned(elevated, data, exec), png, svg);
    if !elevated && data is Some {
        reveal_strlit("zaprust");
        reveal_strlit(".png");
        reveal_strlit(".svg");
        reveal_strlit(".desktop");
        let a = APP_ID@ + ".png"@;
        let b = APP_ID@ + ".svg"@;
        let c = APP_ID@ + ".desktop"@;
        assert(a[a.len() - 2] == 'n' && a.last() == 'g');
        assert(b[b.len() - 2] == 'v' && b.last() == 'g');
        assert(c.last() == 'p');
        lemma_last_two(below(data->0, "icons/hicolor/256x256/apps"@), a);
        lemma_last_two(below(data->0, "icons/hicolor/scalable/apps"@), b);
        lemma_last_two(below(data->0, "applications"@), c);
    }
    assert(apart(files));
    lemma_updated(disk, files);
    lemma_up_to_date(updated(disk, files), files);
}

/// The files of the integration go to the places where desktops look for them below the data
/// directory, under the name by which the window is matched; the entry starts the program by
/// its path, in quotation marks.
pub proof fn the_desktop_finds_the_files(data: Seq<char>, exec: Seq<char>)
    requires
        data.len() > 0,
        data.last() != '/',
    ensures
        ({
            let i = integration(data, Some(exec));
            &&& i.icon_png == data + "/icons/hicolor/256x256/apps/zaprust.png"@
            &&& i.icon_svg == data + "/icons/hicolor/scalable/apps/zaprust.svg"@
            &&& i.app_dir == data + "/applications"@
            &&& i.entry == data + "/applications/zaprust.desktop"@
            &&& i.entry_text matches Some(t)
            &&& contains(t, "\nExec=\""@ + exec + "\"\nIcon=zaprust\n"@)
            &&& begins(t, "[Desktop Entry]\nType=Application\n"@)
            &&& ends(t, "\nStartupWMClass=zaprust\n"@)
        }),
        planned(true, Some(data), Some(exec)) is Nothing,
        planned(false, None, Some(exec)) is Warn,
        planned(false, Some(data), Some(exec)) is Write,
{
    reveal_strlit("/");
    reveal_strlit("zaprust");
    reveal_strlit(".png");
    reveal_strlit(".svg");
    reveal_strlit(".desktop");
    reveal_strlit("applications");
    reveal_strlit("icons/hicolor/256x256/apps");
    reveal_strlit("icons/hicolor/scalable/apps");
    reveal_strlit("/icons/hicolor/256x256/apps/zaprust.png");
    reveal_strlit("/icons/hicolor/scalable/apps/zaprust.svg");
    reveal_strlit("/applications");
    reveal_strlit("/applications/zaprust.desktop");
    let i = integration(data, Some(exec));
    let a = data + "/"@ + "icons/hicolor/256x256/apps"@;
    let b = data + "/"@ + "icons/hicolor/scalable/apps"@;
    let c = data + "/"@ + "applications"@;
    assert(a.last() == 's' && b.last() == 's' && c.last() == 's');
    assert(i.icon_png =~= data + "/icons/hicolor/256x256/apps/zaprust.png"@);
    assert(i.icon_svg =~= data + "/icons/hicolor/scalable/apps/zaprust.svg"@);
    assert(i.app_dir =~= data + "/applications"@);
    assert(i.entry =~= data + "/applications/zaprust.desktop"@);
    lemma_entry(exec);
}

proof fn lemma_entry(exec: Seq<char>)
    ensures
        contains(entry_of(exec), "\nExec=\""@ + exec + "\"\nIcon=zaprust\n"@),
        begins(entry_of(exec), "[Desktop Entry]\nType=Application\n"@),
        ends(entry_of(exec), "\nStartupWMClass=zaprust\n"@),
{
    reveal_strlit("zaprust");
    reveal_strlit("\n");
    reveal_strlit("\nExec=\"");
    reveal_strlit("\"\nIcon=");
    reveal_strlit("\"\nIcon=zaprust\n");
    reveal_strlit("[Desktop Entry]\nType=Application\n");
    reveal_strlit("\nStartupWMClass=zaprust\n");
    reveal_strlit(
        "\nTerminal=false\nCategories=Network;\nKeywords=dpi;zapret;nfqws;bypass;\nStartupWMClass=",
    );
    reveal_strlit(
        "[Desktop Entry]\nType=Application\nName=Zaprust\nGenericName=DPI bypass\nComment=GUI для обхода DPI-блокировок (поверх zapret)\nComment[en]=Lightweight GUI for DPI bypass (zapret)\nExec=\"",
    );
    let t = entry_of(exec);
    let h = ENTRY_HEAD@;
    let w = "\nTerminal=false\nCategories=Network;\nKeywords=dpi;zapret;nfqws;bypass;\nStartupWMClass="@;
    let p = "\nExec=\""@ + exec + "\"\nIcon=zaprust\n"@;
    let k = h.len() - 7;
    assert(h.skip(k) =~= "\nExec=\""@);
    assert(t.subrange(k, k + p.len()) =~= p);
    assert(at(t, k, p));
    let b = "[Desktop Entry]\nType=Application\n"@;
    assert(t.take(b.len() as int) =~= b);
    let e = "\nStartupWMClass=zaprust\n"@;
    assert(t.skip(t.len() - e.len()) =~= e);
}

/// The data directory is the one that the environment names, where it is absolute, and else
/// the usual one below the home directory.
pub proof fn the_data_directory_is_named_or_usual(xdg: Seq<char>, home: Seq<char>)
    requires
        home.len() > 0,
        home.last() != '/',
    ensures
        xdg.len() > 0 && xdg[0] == '/' ==> data_home_of(Some(xdg), Some(home)) == Some(xdg),
        xdg.len() == 0 || xdg[0] != '/' ==> data_home_of(Some(xdg), Some(home)) == Some(
            home + "/.local/share"@,
        ),
        data_home_of(None, Some(home)) == Some(home + "/.local/share"@),
        data_home_of(None, None) is None,
{
    reveal_strlit("/");
    reveal_strlit(".local");
    reveal_strlit("share");
    reveal_strlit("/.local/share");
    let a = home + "/"@ + ".local"@;
    assert(a.last() == 'l');
    assert(a + "/"@ + "share"@ =~= home + "/.local/share"@);
    if xdg.len() > 0 && xdg[0] == '/' {
        assert(xdg.take(1) =~= "/"@);
    } else if begins(xdg, "/"@) {
        assert(xdg.take(1)[0] == xdg[0]);
    }
}

} // verus!
