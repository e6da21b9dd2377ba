//! What the interface shows for a state, and what its buttons do.
use vstd::prelude::*;

use crate::autoselect::AutoProgress;
use crate::state::ZaprustApp;
use crate::strategies::Strategy;
use crate::text::{cat, cat3, copy_opt, decimal_text, same, to_uppercase};

verus! {

use crate::autoselect::ProgressView;
use crate::state::{chosen_name, mode_switched, only_claims, AppView};
use crate::strategies::{views, StrategyView};
use crate::text::{begins, capitals, decimal, ends, opt_text};

/// The colour of a text or a button.
#[derive(Clone, Copy, Debug, PartialEq, Eq, Structural)]
pub enum Tone {
    /// What works.
    Good,
    /// What starts something.
    Accent,
    /// What stops something, or has failed.
    Danger,
    /// What is worth a look.
    Notice,
    /// What is not active.
    Muted,
    /// What stands out.
    Bright,
    /// What lies in the background.
    Field,
}

/// The picture on a button.
#[derive(Clone, Copy, Debug, PartialEq, Eq, Structural)]
pub enum Icon {
    Play,
    Stop,
    Download,
    Refresh,
    Settings,
    ChevronDown,
    ChevronUp,
    Cancel,
    Test,
}

/// What a button does.
#[derive(Clone, Copy, Debug, PartialEq, Eq, Structural)]
pub enum Act {
    DownloadCore,
    CancelAutoselect,
    StopBypass,
    StartBypass,
    /// Begin an auto-selection with or without the last winner, with or without the game
    /// filter.
    StartAutoselect(bool, bool),
    StartTest,
    CheckAndUpdate,
    OpenLists,
    /// Forget the last winner and try all strategies, with or without the game filter.
    ResetAndRescan(bool),
}

/// A button.
#[derive(Clone, Copy, Debug)]
pub struct Button {
    pub label: &'static str,
    pub icon: Option<Icon>,
    pub tone: Tone,
    pub enabled: bool,
    pub act: Act,
}

/// A button as a mathematical value.
pub struct ButtonView {
    pub label: Seq<char>,
    pub icon: Option<Icon>,
    pub tone: Tone,
    pub enabled: bool,
    pub act: Act,
}

impl View for Button {
    type V = ButtonView;

    open spec fn view(&self) -> ButtonView {
        ButtonView {
            label: self.label@,
            icon: self.icon,
            tone: self.tone,
            enabled: self.enabled,
            act: self.act,
        }
    }
}

// ── The status ──────────────────────────────────────────────────────────────

/// Whether the bypass runs: the service does, and nothing speaks against it.
pub open spec fn runs(s: AppView) -> bool {
    s.service is Running && !s.status_desync
}

/// The status in the title: an error after a failed operation and where the service only
/// claims to run; otherwise whether the bypass runs.
pub open spec fn status_of(s: AppView) -> (Seq<char>, Tone) {
    if s.op_failed || s.status_desync {
        ("Ошибка"@, Tone::Danger)
    } else if runs(s) {
        ("Работает"@, Tone::Good)
    } else {
        ("Выключен"@, Tone::Muted)
    }
}

/// The status in the title.
pub fn title_bar(app: &ZaprustApp) -> (r: (&'static str, Tone))
    ensures
        (r.0@, r.1) == status_of(app@),
{
    if app.op_failed || app.status_desync {
        ("Ошибка", Tone::Danger)
    } else if app.is_running() {
        ("Работает", Tone::Good)
    } else {
        ("Выключен", Tone::Muted)
    }
}

/// The title never lies: it says that the bypass works only where the service runs, the
/// last look has not found the bypass missing, and no operation has failed silently.
pub proof fn the_title_never_lies(s: AppView)
    ensures
        status_of(s).1 == Tone::Good <==> s.service is Running && !s.status_desync && !s.op_failed,
{
}

// ── The progress of an auto-selection ───────────────────────────────────────

/// A line on the progress of an auto-selection: the given words, how many strategies have
/// been tried of how many, and which one is being tried; other words before the first
/// report.
pub open spec fn progress_of(
    p: Option<ProgressView>,
    words: Seq<char>,
    before: Seq<char>,
) -> Seq<char> {
    match p {
        Some(q) => if q.total > 0 {
            words + decimal(q.idx as nat) + "/"@ + decimal(q.total as nat) + (if q.strategy.len()
                == 0 {
                ""@
            } else {
                " · "@ + q.strategy
            })
        } else {
            before
        },
        None => before,
    }
}

fn progress_text(p: &Option<AutoProgress>, words: &str, before: &str) -> (r: String)
    ensures
        r@ == progress_of(crate::state::opt_report(*p), words@, before@),
{
    match p {
        Some(q) => {
            if q.total > 0 {
                let mut s = cat3(words, decimal_text(q.idx as u64).as_str(), "/");
                s.append(decimal_text(q.total as u64).as_str());
                if !q.strategy.as_str().is_empty() {
                    s.append(cat(" · ", q.strategy.as_str()).as_str());
                }
                proof {
                    reveal_strlit("");
                    assert(s@ + ""@ =~= s@);
                }
                s
            } else {
                before.to_owned()
            }
        },
        None => before.to_owned(),
    }
}

// ── The simple view ─────────────────────────────────────────────────────────

/// The simple view: a headline, a line below it, one button, and maybe another one.
#[derive(Debug)]
pub struct SimpleView {
    pub headline: &'static str,
    pub headline_tone: Tone,
    pub detail: Option<String>,
    pub detail_tone: Tone,
    pub button: Button,
    pub reset: Option<Act>,
}

/// The simple view as a mathematical value.
pub struct SimpleSpec {
    pub headline: Seq<char>,
    pub headline_tone: Tone,
    pub detail: Option<Seq<char>>,
    pub detail_tone: Tone,
    pub button: ButtonView,
    pub reset: Option<Act>,
}

impl View for SimpleView {
    type V = SimpleSpec;

    open spec fn view(&self) -> SimpleSpec {
        SimpleSpec {
            headline: self.headline@,
            headline_tone: self.headline_tone,
            detail: opt_text(self.detail),
            detail_tone: self.detail_tone,
            button: self.button@,
            reset: self.reset,
        }
    }
}

/// The headline of the simple view, the line below it, and their colours. What is under way
/// goes before what runs, and that before what is missing.
pub open spec fn simple_text(s: AppView, ready: bool) -> (Seq<char>, Tone, Option<Seq<char>>, Tone) {
    if s.autoselect_running {
        (
            "Подбираю стратегию…"@,
            Tone::Bright,
            Some(progress_of(s.autoselect_progress, "Проверяю "@, "запуск…"@)),
            Tone::Muted,
        )
    } else if runs(s) {
        (
            "Обход работает"@,
            Tone::Good,
            if s.auto_best is Some && s.auto_best->0.len() > 0 {
                s.auto_best
            } else {
                None
            },
            Tone::Muted,
        )
    } else if !ready {
        (
            "Ядро не установлено"@,
            Tone::Bright,
            Some("Скачайте актуальную сборку Flowseal"@),
            Tone::Muted,
        )
    } else if s.autoselect_no_result {
        (
            "Обход выключен"@,
            Tone::Bright,
            Some("Рабочая стратегия не найдена — попробуйте ещё раз или расширенный режим"@),
            Tone::Notice,
        )
    } else {
        (
            "Обход выключен"@,
            Tone::Bright,
            Some("Нажмите «Старт» — подберём рабочую автоматически"@),
            Tone::Muted,
        )
    }
}

/// The button that fetches the core.
pub open spec fn download_button(s: AppView) -> ButtonView {
    ButtonView {
        label: if s.update_busy {
            "Скачивание…"@
        } else {
            "Скачать ядро"@
        },
        icon: Some(Icon::Download),
        tone: Tone::Accent,
        enabled: !s.update_busy,
        act: Act::DownloadCore,
    }
}

/// The button that cancels an auto-selection.
pub open spec fn cancel_button() -> ButtonView {
    ButtonView {
        label: "Отмена"@,
        icon: Some(Icon::Cancel),
        tone: Tone::Danger,
        enabled: true,
        act: Act::CancelAutoselect,
    }
}

/// The button of the simple view.
pub open spec fn simple_button(s: AppView, ready: bool) -> ButtonView {
    if !ready {
        download_button(s)
    } else if s.autoselect_running {
        cancel_button()
    } else if runs(s) {
        ButtonView {
            label: "Стоп"@,
            icon: Some(Icon::Stop),
            tone: Tone::Danger,
            enabled: true,
            act: Act::StopBypass,
        }
    } else {
        ButtonView {
            label: if s.autoselect_no_result {
                "Попробовать снова"@
            } else {
                "Старт"@
            },
            icon: Some(
                if s.autoselect_no_result {
                    Icon::Refresh
                } else {
                    Icon::Play
                },
            ),
            tone: Tone::Accent,
            enabled: true,
            act: Act::StartAutoselect(true, false),
        }
    }
}

/// The simple view of a state. The second button is there where a winner can be forgotten
/// and nothing is under way.
pub open spec fn simple_of(s: AppView, ready: bool) -> SimpleSpec {
    let t = simple_text(s, ready);
    SimpleSpec {
        headline: t.0,
        headline_tone: t.1,
        detail: t.2,
        detail_tone: t.3,
        button: simple_button(s, ready),
        reset: if ready && !runs(s) && !s.autoselect_running && !s.update_busy && s.auto_best
            is Some {
            Some(Act::ResetAndRescan(false))
        } else {
            None
        },
    }
}

fn make_download(app: &ZaprustApp) -> (r: Button)
    ensures
        r@ == download_button(app@),
{
    Button {
        label: if app.update_busy {
            "Скачивание…"
        } else {
            "Скачать ядро"
        },
        icon: Some(Icon::Download),
        tone: Tone::Accent,
        enabled: !app.update_busy,
        act: Act::DownloadCore,
    }
}

fn make_cancel() -> (r: Button)
    ensures
        r@ == cancel_button(),
{
    Button {
        label: "Отмена",
        icon: Some(Icon::Cancel),
        tone: Tone::Danger,
        enabled: true,
        act: Act::CancelAutoselect,
    }
}

fn simple_lines(app: &ZaprustApp, ready: bool) -> (r: (&'static str, Tone, Option<String>, Tone))
    ensures
        (r.0@, r.1, opt_text(r.2), r.3) == simple_text(app@, ready),
{
    if app.autoselect_running {
        (
            "Подбираю стратегию…",
            Tone::Bright,
            Some(progress_text(&app.autoselect_progress, "Проверяю ", "запуск…")),
            Tone::Muted,
        )
    } else if app.is_running() {
        let named = match &app.auto_best {
            Some(n) => !n.as_str().is_empty(),
            None => false,
        };
        let detail = if named {
            copy_opt(&app.auto_best)
        } else {
            None
        };
        ("Обход работает", Tone::Good, detail, Tone::Muted)
    } else if !ready {
        (
            "Ядро не установлено",
            Tone::Bright,
            Some("Скачайте актуальную сборку Flowseal".to_owned()),
            Tone::Muted,
        )
    } else if app.autoselect_no_result {
        (
            "Обход выключен",
            Tone::Bright,
            Some(
                "Рабочая стратегия не найдена — попробуйте ещё раз или расширенный режим".to_owned(),
            ),
            Tone::Notice,
        )
    } else {
        (
            "Обход выключен",
            Tone::Bright,
            Some("Нажмите «Старт» — подберём рабочую автоматически".to_owned()),
            Tone::Muted,
        )
    }
}

/// The simple view of a state; `ready` says whether the core is ready.
pub fn render_simple(app: &ZaprustApp, ready: bool) -> (r: SimpleView)
    ensures
        r@ == simple_of(app@, ready),
{
    let running = app.is_running();
    let (headline, headline_tone, detail, detail_tone) = simple_lines(app, ready);
    let button = if !ready {
        make_download(app)
    } else if app.autoselect_running {
        make_cancel()
    } else if running {
        Button {
            label: "Стоп",
            icon: Some(Icon::Stop),
            tone: Tone::Danger,
            enabled: true,
            act: Act::StopBypass,
        }
    } else {
        let retry = app.autoselect_no_result;
        Button {
            label: if retry {
                "Попробовать снова"
            } else {
                "Старт"
            },
            icon: Some(
                if retry {
                    Icon::Refresh
                } else {
                    Icon::Play
                },
            ),
            tone: Tone::Accent,
            enabled: true,
            act: Act::StartAutoselect(true, false),
        }
    };
    let resets = ready && !running && !app.autoselect_running && !app.update_busy
        && app.auto_best.is_some();
    let reset = if resets {
        Some(Act::ResetAndRescan(false))
    } else {
        None
    };
    SimpleView { headline, headline_tone, detail, detail_tone, button, reset }
}

// ── The switch of the view ──────────────────────────────────────────────────

/// The label and the picture of the switch, by whether the simple view is shown.
pub open spec fn switch_label(simple: bool) -> (Seq<char>, Icon) {
    if simple {
        ("Расширенный режим"@, Icon::ChevronDown)
    } else {
        ("Простой режим"@, Icon::ChevronUp)
    }
}

/// The label and the picture of the switch between the two views.
pub fn mode_switch(app: &ZaprustApp) -> (r: (&'static str, Icon))
    ensures
        app.simple_mode ==> r.0@ == "Расширенный режим"@ && r.1 == Icon::ChevronDown,
        !app.simple_mode ==> r.0@ == "Простой режим"@ && r.1 == Icon::ChevronUp,
        (r.0@, r.1) == switch_label(app.simple_mode),
{
    if app.simple_mode {
        ("Расширенный режим", Icon::ChevronDown)
    } else {
        ("Простой режим", Icon::ChevronUp)
    }
}

// ── The buttons of the other view ───────────────────────────────────────────

/// The buttons of the other view.
#[derive(Debug)]
pub enum ActionView {
    /// There is no core: only the download.
    Download(Button),
    /// An auto-selection runs: its progress, and the button that cancels it.
    Selecting(String, Button),
    /// Start or stop, the test, the update and the lists; and maybe the reset below them.
    Row(Button, Button, Button, Button, Option<Act>),
}

/// The buttons as a mathematical value.
pub enum ActionSpec {
    Download(ButtonView),
    Selecting(Seq<char>, ButtonView),
    Row(ButtonView, ButtonView, ButtonView, ButtonView, Option<Act>),
}

impl View for ActionView {
    type V = ActionSpec;

    open spec fn view(&self) -> ActionSpec {
        match self {
            ActionView::Download(b) => ActionSpec::Download(b@),
            ActionView::Selecting(l, b) => ActionSpec::Selecting(l@, b@),
            ActionView::Row(a, b, c, d, reset) => ActionSpec::Row(a@, b@, c@, d@, *reset),
        }
    }
}

/// The button that starts or stops the bypass. It cannot be used while an operation runs,
/// and not where there is nothing to start.
pub open spec fn start_button(s: AppView) -> ButtonView {
    ButtonView {
        label: if s.service_busy {
            "…"@
        } else if runs(s) {
            "Стоп"@
        } else {
            "Старт"@
        },
        icon: if s.service_busy {
            None
        } else if runs(s) {
            Some(Icon::Stop)
        } else {
            Some(Icon::Play)
        },
        tone: if s.service_busy {
            Tone::Field
        } else if runs(s) {
            Tone::Danger
        } else {
            Tone::Accent
        },
        enabled: !s.service_busy && (runs(s) || s.smart_selected || s.selected_strategy
            < s.core.strategies.len()),
        act: if runs(s) {
            Act::StopBypass
        } else if s.smart_selected {
            Act::StartAutoselect(true, s.game_filter)
        } else {
            Act::StartBypass
        },
    }
}

/// The button that tests the targets.
pub open spec fn test_button(s: AppView) -> ButtonView {
    ButtonView {
        label: if s.test_running {
            "Тест…"@
        } else {
            "Тест"@
        },
        icon: Some(Icon::Test),
        tone: Tone::Field,
        enabled: !s.test_running,
        act: Act::StartTest,
    }
}

/// The button that updates the core.
pub open spec fn update_button(s: AppView) -> ButtonView {
    ButtonView {
        label: ""@,
        icon: Some(Icon::Refresh),
        tone: Tone::Field,
        enabled: !s.update_busy,
        act: Act::CheckAndUpdate,
    }
}

/// The button that opens the lists.
pub open spec fn lists_button() -> ButtonView {
    ButtonView {
        label: ""@,
        icon: Some(Icon::Settings),
        tone: Tone::Field,
        enabled: true,
        act: Act::OpenLists,
    }
}

/// The buttons of the other view.
pub open spec fn actions_of(s: AppView, ready: bool) -> ActionSpec {
    if !ready {
        ActionSpec::Download(download_button(s))
    } else if s.autoselect_running {
        ActionSpec::Selecting(
            progress_of(s.autoselect_progress, "Подбираю "@, "Подбираю…"@),
            cancel_button(),
        )
    } else {
        ActionSpec::Row(
            start_button(s),
            test_button(s),
            update_button(s),
            lists_button(),
            if s.smart_selected && s.auto_best is Some && !runs(s) && !s.service_busy {
                Some(Act::ResetAndRescan(s.game_filter))
            } else {
                None
            },
        )
    }
}

fn make_start(app: &ZaprustApp) -> (r: Button)
    ensures
        r@ == start_button(app@),
{
    let running = app.is_running();
    let busy = app.service_busy;
    let chosen = match app.current_strategy() {
        Some(_) => true,
        None => false,
    };
    Button {
        label: if busy {
            "…"
        } else if running {
            "Стоп"
        } else {
            "Старт"
        },
        icon: if busy {
            None
        } else if running {
            Some(Icon::Stop)
        } else {
            Some(Icon::Play)
        },
        tone: if busy {
            Tone::Field
        } else if running {
            Tone::Danger
        } else {
            Tone::Accent
        },
        enabled: !busy && (running || app.smart_selected || chosen),
        act: if running {
            Act::StopBypass
        } else if app.smart_selected {
            Act::StartAutoselect(true, app.game_filter)
        } else {
            Act::StartBypass
        },
    }
}

/// The buttons of the other view; `ready` says whether the core is ready.
pub fn action_buttons(app: &ZaprustApp, ready: bool) -> (r: ActionView)
    ensures
        r@ == actions_of(app@, ready),
{
    if !ready {
        return ActionView::Download(make_download(app));
    }
    if app.autoselect_running {
        return ActionView::Selecting(
            progress_text(&app.autoselect_progress, "Подбираю ", "Подбираю…"),
            make_cancel(),
        );
    }
    let start = make_start(app);
    let test = Button {
        label: if app.test_running {
            "Тест…"
        } else {
            "Тест"
        },
        icon: Some(Icon::Test),
        tone: Tone::Field,
        enabled: !app.test_running,
        act: Act::StartTest,
    };
    let update = Button {
        label: "",
        icon: Some(Icon::Refresh),
        tone: Tone::Field,
        enabled: !app.update_busy,
        act: Act::CheckAndUpdate,
    };
    let lists = Button {
        label: "",
        icon: Some(Icon::Settings),
        tone: Tone::Field,
        enabled: true,
        act: Act::OpenLists,
    };
    let resets = app.smart_selected && app.auto_best.is_some() && !app.is_running()
        && !app.service_busy;
    let reset = if resets {
        Some(Act::ResetAndRescan(app.game_filter))
    } else {
        None
    };
    ActionView::Row(start, test, update, lists, reset)
}

/// Whether a button that can be used does something.
pub open spec fn usable(b: ButtonView, a: Act) -> bool {
    b.enabled && b.act == a
}

/// The two views agree on what can be stopped: with a core and without an auto-selection or
/// an operation under way, each of them offers to stop the bypass exactly where it runs.
pub proof fn both_views_can_stop(s: AppView)
    requires
        !s.autoselect_running,
        !s.service_busy,
    ensures
        usable(simple_of(s, true).button, Act::StopBypass) <==> runs(s),
        actions_of(s, true) matches ActionSpec::Row(b, _, _, _, _) && (usable(b, Act::StopBypass)
            <==> runs(s)),
{
}

/// Without a core that is ready nothing can be started: both views offer the download and
/// nothing else.
pub proof fn nothing_starts_without_a_core(s: AppView)
    ensures
        simple_of(s, false).button.act == Act::DownloadCore,
        simple_of(s, false).reset is None,
        actions_of(s, false) == ActionSpec::Download(download_button(s)),
{
}

// ── The menu of the strategies ──────────────────────────────────────────────

/// An entry of the menu.
#[derive(Debug)]
pub enum MenuItem {
    Header(String),
    Separator,
    /// The automatic choice, and whether it is chosen.
    Smart(String, bool),
    /// A strategy by its position, its name, and whether it is chosen.
    Pick(usize, String, bool),
}

/// An entry of the menu as a mathematical value.
pub enum ItemView {
    Header(Seq<char>),
    Separator,
    Smart(Seq<char>, bool),
    Pick(usize, Seq<char>, bool),
}

impl View for MenuItem {
    type V = ItemView;

    open spec fn view(&self) -> ItemView {
        match self {
            MenuItem::Header(t) => ItemView::Header(t@),
            MenuItem::Separator => ItemView::Separator,
            MenuItem::Smart(t, b) => ItemView::Smart(t@, *b),
            MenuItem::Pick(i, t, b) => ItemView::Pick(*i, t@, *b),
        }
    }
}

/// Entries as mathematical values.
pub open spec fn items_view(v: Seq<MenuItem>) -> Seq<ItemView> {
    Seq::new(v.len(), |i: int| v[i]@)
}

/// The automatic choice as it is shown, with the last winner.
pub open spec fn smart_label(s: AppView) -> Seq<char> {
    "smart("@ + (match s.auto_best {
        Some(n) => n,
        None => ""@,
    }) + ")"@
}

/// What stands before the strategy at a position: the name of its group in capital letters
/// where a group begins, with a separator between two groups.
pub open spec fn group_head(list: Seq<StrategyView>, i: int) -> Seq<ItemView> {
    if i == 0 {
        seq![ItemView::Header(capitals(list[i].group))]
    } else if list[i].group != list[i - 1].group {
        seq![ItemView::Separator, ItemView::Header(capitals(list[i].group))]
    } else {
        Seq::empty()
    }
}

/// The entries of the first `n` strategies.
pub open spec fn strategy_items(s: AppView, n: int) -> Seq<ItemView>
    decreases n,
{
    if n <= 0 {
        Seq::empty()
    } else {
        strategy_items(s, n - 1) + group_head(s.core.strategies, n - 1) + seq![
            ItemView::Pick(
                (n - 1) as usize,
                s.core.strategies[n - 1].name,
                !s.smart_selected && s.selected_strategy == n - 1,
            ),
        ]
    }
}

/// The entries of the menu: the automatic choice, and then all strategies.
pub open spec fn menu_items(s: AppView) -> Seq<ItemView> {
    seq![
        ItemView::Header("АВТО"@),
        ItemView::Smart(smart_label(s), s.smart_selected),
        ItemView::Separator,
    ] + strategy_items(s, s.core.strategies.len() as int)
}

/// The menu: what it shows when it is closed, and its entries.
#[derive(Debug)]
pub struct Menu {
    pub selected_text: String,
    pub items: Vec<MenuItem>,
}

/// The state with a position that is there.
pub open spec fn clamped(s: AppView) -> AppView {
    AppView {
        selected_strategy: if s.selected_strategy >= s.core.strategies.len() {
            0
        } else {
            s.selected_strategy
        },
        ..s
    }
}

fn push_head(items: &mut Vec<MenuItem>, list: &[Strategy], i: usize)
    requires
        i < list@.len(),
    ensures
        items_view(final(items)@) == items_view(old(items)@) + group_head(views(list@), i as int),
{
    let ghost before = items_view(items@);
    if i == 0 {
        items.push(MenuItem::Header(to_uppercase(list[i].group.as_str())));
    } else if !same(list[i].group.as_str(), list[i - 1].group.as_str()) {
        items.push(MenuItem::Separator);
        items.push(MenuItem::Header(to_uppercase(list[i].group.as_str())));
    }
    assert(items_view(items@) =~= before + group_head(views(list@), i as int));
}

fn make_smart_label(app: &ZaprustApp) -> (r: String)
    ensures
        r@ == smart_label(app@),
{
    match &app.auto_best {
        Some(n) => cat3("smart(", n.as_str(), ")"),
        None => cat3("smart(", "", ")"),
    }
}

fn make_items(app: &ZaprustApp) -> (r: Vec<MenuItem>)
    ensures
        items_view(r@) == menu_items(app@),
{
    let ghost s = app@;
    let mut items: Vec<MenuItem> = Vec::new();
    items.push(MenuItem::Header("АВТО".to_owned()));
    items.push(MenuItem::Smart(make_smart_label(app), app.smart_selected));
    items.push(MenuItem::Separator);
    let ghost top = items_view(items@);
    assert(top =~= seq![
        ItemView::Header("АВТО"@),
        ItemView::Smart(smart_label(s), s.smart_selected),
        ItemView::Separator,
    ]);
    let mut i: usize = 0;
    assert(top + strategy_items(s, 0) =~= top);
    while i < app.core.strategies.len()
        invariant
            i <= app.core.strategies@.len(),
            app@ == s,
            items_view(items@) == top + strategy_items(s, i as int),
        decreases app.core.strategies@.len() - i,
    {
        push_head(&mut items, &app.core.strategies, i);
        let ghost before = items_view(items@);
        let chosen = !app.smart_selected && app.selected_strategy == i;
        items.push(MenuItem::Pick(i, app.core.strategies[i].name.clone(), chosen));
        proof {
            let pick = ItemView::Pick(i, app.core.strategies@[i as int].name@, chosen);
            let rest = strategy_items(s, i as int);
            let head = group_head(s.core.strategies, i as int);
            assert(items_view(items@) =~= before + seq![pick]);
            assert(app.core.strategies@[i as int]@ == s.core.strategies[i as int]);
            assert(top + rest + head + seq![pick] =~= top + (rest + head + seq![pick]));
        }
        i += 1;
    }
    assert(s.core.strategies.len() == app.core.strategies@.len());
    items
}

/// Whether a menu is that of a state: what it shows when it is closed, and its entries.
pub open spec fn shows(m: Menu, s: AppView) -> bool {
    &&& items_view(m.items@) == menu_items(s)
    &&& m.selected_text@ == (if s.smart_selected {
        smart_label(s)
    } else {
        s.core.strategies[s.selected_strategy as int].name
    })
}

fn make_menu(app: &ZaprustApp) -> (r: Menu)
    requires
        app@.selected_strategy < app@.core.strategies.len(),
    ensures
        shows(r, app@),
{
    let selected_text = if app.smart_selected {
        make_smart_label(app)
    } else {
        app.core.strategies[app.selected_strategy].name.clone()
    };
    Menu { selected_text, items: make_items(app) }
}

fn clamp_choice(app: &mut ZaprustApp)
    ensures
        final(app)@ == clamped(old(app)@),
{
    assert(app@.core.strategies.len() == app.core.strategies@.len());
    if app.selected_strategy >= app.core.strategies.len() {
        app.selected_strategy = 0;
    }
}

/// The menu of the strategies; none where there are no strategies. A position that is no
/// longer there is set to the first one.
pub fn strategy_row(app: &mut ZaprustApp) -> (r: Option<Menu>)
    ensures
        old(app)@.core.strategies.len() == 0 ==> r is None && final(app)@ == old(app)@,
        old(app)@.core.strategies.len() > 0 ==> final(app)@ == clamped(old(app)@) && (r matches Some(
            m,
        ) && shows(m, clamped(old(app)@))),
{
    assert(app@.core.strategies.len() == app.core.strategies@.len());
    if app.core.strategies.len() == 0 {
        return None;
    }
    clamp_choice(app);
    Some(make_menu(app))
}

/// The positions that a menu offers, in its order.
pub open spec fn picks(items: Seq<ItemView>) -> Seq<int>
    decreases items.len(),
{
    if items.len() == 0 {
        Seq::empty()
    } else {
        match items.last() {
            ItemView::Pick(i, _, _) => picks(items.drop_last()).push(i as int),
            _ => picks(items.drop_last()),
        }
    }
}

proof fn lemma_picks_add(a: Seq<ItemView>, b: Seq<ItemView>)
    ensures
        picks(a + b) == picks(a) + picks(b),
    decreases b.len(),
{
    if b.len() == 0 {
        assert(a + b =~= a);
        assert(picks(a) + Seq::<int>::empty() =~= picks(a));
    } else {
        lemma_picks_add(a, b.drop_last());
        assert((a + b).drop_last() =~= a + b.drop_last());
        assert((a + b).last() == b.last());
        match b.last() {
            ItemView::Pick(i, _, _) => {
                assert(picks(a + b) =~= picks(a) + picks(b));
            },
            _ => {},
        }
    }
}

proof fn lemma_head_picks_nothing(list: Seq<StrategyView>, i: int)
    ensures
        picks(group_head(list, i)) == Seq::<int>::empty(),
{
    let h = group_head(list, i);
    reveal_with_fuel(picks, 3);
    if h.len() == 2 {
        assert(h.drop_last().drop_last().len() == 0);
    }
}

proof fn lemma_strategy_picks(s: AppView, n: int)
    requires
        0 <= n <= usize::MAX,
    ensures
        picks(strategy_items(s, n)) == Seq::new(n as nat, |i: int| i),
    decreases n,
{
    let want = Seq::new(n as nat, |i: int| i);
    if n == 0 {
        assert(picks(strategy_items(s, n)) =~= want);
    } else {
        let rest = strategy_items(s, n - 1);
        let head = group_head(s.core.strategies, n - 1);
        let last = strategy_items(s, n).last();
        lemma_strategy_picks(s, n - 1);
        lemma_head_picks_nothing(s.core.strategies, n - 1);
        lemma_picks_add(rest, head);
        lemma_picks_add(rest + head, seq![last]);
        assert(strategy_items(s, n) =~= rest + head + seq![last]);
        reveal_with_fuel(picks, 2);
        assert(seq![last].drop_last() =~= Seq::<ItemView>::empty());
        assert(picks(seq![last]) =~= seq![n - 1]);
        assert(picks(strategy_items(s, n)) =~= want);
    }
}

/// The menu offers every strategy exactly once, in the order in which they stand.
pub proof fn the_menu_is_complete(s: AppView)
    requires
        s.core.strategies.len() <= usize::MAX,
    ensures
        picks(menu_items(s)) == Seq::new(s.core.strategies.len(), |i: int| i),
{
    let top = seq![
        ItemView::Header("АВТО"@),
        ItemView::Smart(smart_label(s), s.smart_selected),
        ItemView::Separator,
    ];
    let n = s.core.strategies.len() as int;
    lemma_strategy_picks(s, n);
    lemma_picks_add(top, strategy_items(s, n));
    reveal_with_fuel(picks, 4);
    assert(top.drop_last().drop_last().drop_last().len() == 0);
    assert(picks(top) =~= Seq::<int>::empty());
    assert(picks(menu_items(s)) =~= Seq::new(s.core.strategies.len(), |i: int| i));
}

// ── The editor of the lists ─────────────────────────────────────────────────

/// The editor of the lists: what it shows as the chosen file, its status, and the label of
/// the button that saves.
#[derive(Debug)]
pub struct ListsView {
    pub current: String,
    pub status: String,
    pub save_label: &'static str,
    /// Whether the buttons and the text can be used.
    pub enabled: bool,
}

/// What the editor shows: the chosen file, the status, and the label of the button that
/// saves.
pub open spec fn editor_texts(s: AppView) -> (Seq<char>, Seq<char>, Seq<char>) {
    (
        if s.lists_sel < s.lists_files.len() {
            s.lists_files[s.lists_sel as int]
        } else {
            ""@
        },
        if s.lists_status.len() == 0 {
            " "@
        } else {
            s.lists_status
        },
        if s.lists_busy {
            "…"@
        } else {
            "Сохранить"@
        },
    )
}

/// The editor of the lists; none where there are no lists. Its status is never empty, so
/// that nothing jumps.
pub fn render_lists(app: &ZaprustApp) -> (r: Option<ListsView>)
    ensures
        ({
            let s = app@;
            if s.lists_files.len() == 0 {
                r is None
            } else {
                &&& r matches Some(v)
                &&& v.current@ == (if s.lists_sel < s.lists_files.len() {
                    s.lists_files[s.lists_sel as int]
                } else {
                    ""@
                })
                &&& v.status@ == (if s.lists_status.len() == 0 {
                    " "@
                } else {
                    s.lists_status
                })
                &&& v.save_label@ == (if s.lists_busy {
                    "…"@
                } else {
                    "Сохранить"@
                })
                &&& v.enabled == !s.lists_busy
            }
        }),
        r matches Some(v) ==> (v.current@, v.status@, v.save_label@) == editor_texts(app@),
{
    assert(app@.lists_files.len() == app.lists_files@.len());
    if app.lists_files.len() == 0 {
        return None;
    }
    let current = if app.lists_sel < app.lists_files.len() {
        app.lists_files[app.lists_sel].clone()
    } else {
        "".to_owned()
    };
    let status = if app.lists_status.as_str().is_empty() {
        " ".to_owned()
    } else {
        app.lists_status.clone()
    };
    let save_label = if app.lists_busy {
        "…"
    } else {
        "Сохранить"
    };
    Some(ListsView { current, status, save_label, enabled: !app.lists_busy })
}

// ── Laws ────────────────────────────────────────────────────────────────────

/// The title shows an error exactly where an operation has failed or the service only claims
/// to run, and is muted exactly where nothing has failed and the service does not run.
pub proof fn the_title_shows_every_error(s: AppView)
    ensures
        status_of(s).1 == Tone::Danger <==> s.op_failed || s.status_desync,
        status_of(s).1 == Tone::Muted <==> !s.op_failed && !s.status_desync && !(s.service
            is Running),
        status_of(s).1 == Tone::Danger <==> status_of(s).0 == "Ошибка"@,
        status_of(s).1 == Tone::Good <==> status_of(s).0 == "Работает"@,
{
    reveal_strlit("Ошибка");
    reveal_strlit("Работает");
    reveal_strlit("Выключен");
    assert("Ошибка"@.len() == 6 && "Работает"@.len() == 8 && "Выключен"@.len() == 8);
    assert("Работает"@[0] == 'Р' && "Выключен"@[0] == 'В');
}

/// The progress tells how far the selection is and with what: the number of the strategy,
/// that of all of them, and the name at the end. Before the first report, and where there
/// is nothing to count, other words stand there.
pub proof fn the_progress_tells_how_far(q: ProgressView, words: Seq<char>, before: Seq<char>)
    ensures
        progress_of(None, words, before) == before,
        q.total == 0 ==> progress_of(Some(q), words, before) == before,
        q.total > 0 ==> {
            let line = progress_of(Some(q), words, before);
            &&& begins(line, words + decimal(q.idx as nat) + "/"@ + decimal(q.total as nat))
            &&& ends(line, q.strategy)
        },
{
    reveal_strlit("");
    if q.total > 0 {
        let line = progress_of(Some(q), words, before);
        let head = words + decimal(q.idx as nat) + "/"@ + decimal(q.total as nat);
        assert(line.take(head.len() as int) =~= head);
        assert(line.skip(line.len() - q.strategy.len()) =~= q.strategy);
    }
}

/// The simple view has one button, and it does what fits: without a core it fetches one, a
/// selection can be canceled, a running bypass can be stopped, and otherwise one is looked
/// for with the last winner first. The headline is green exactly where the bypass runs and
/// nothing is being looked for; a search that found nothing is pointed out.
pub proof fn the_simple_view_fits(s: AppView, ready: bool)
    ensures
        ({
            let v = simple_of(s, ready);
            let up = s.service is Running && !s.status_desync;
            let idle = ready && !up && !s.autoselect_running;
            &&& v.button.act == (if !ready {
                Act::DownloadCore
            } else if s.autoselect_running {
                Act::CancelAutoselect
            } else if up {
                Act::StopBypass
            } else {
                Act::StartAutoselect(true, false)
            })
            &&& v.button.enabled <==> ready || !s.update_busy
            &&& v.headline_tone == Tone::Good <==> up && !s.autoselect_running
            &&& v.detail_tone == Tone::Notice <==> idle && s.autoselect_no_result
            &&& s.autoselect_running ==> v.detail == Some(
                progress_of(s.autoselect_progress, "Проверяю "@, "запуск…"@),
            )
            &&& up && !s.autoselect_running ==> v.detail == (if s.auto_best == Some(
                Seq::<char>::empty(),
            ) {
                None
            } else {
                s.auto_best
            })
            &&& v.reset is Some <==> idle && !s.update_busy && s.auto_best is Some
            &&& v.reset matches Some(a) ==> a == Act::ResetAndRescan(false)
        }),
{
    if s.auto_best is Some && s.auto_best->0.len() == 0 {
        assert(s.auto_best->0 =~= Seq::<char>::empty());
    }
}

/// The row of buttons offers what can be done: a running bypass can be stopped, otherwise
/// the choice can be started, where there is one, and neither while an operation runs. A
/// test and an update can begin where none runs, and the lists can always be opened. The
/// last winner can be forgotten where the choice is automatic and nothing runs.
pub proof fn the_row_offers_what_can_be_done(s: AppView)
    requires
        !s.autoselect_running,
    ensures
        actions_of(s, true) matches ActionSpec::Row(b, test, update, lists, reset) && {
            let up = s.service is Running && !s.status_desync;
            let free = !s.service_busy && !up;
            &&& usable(b, Act::StopBypass) <==> up && !s.service_busy
            &&& usable(b, Act::StartAutoselect(true, s.game_filter)) <==> free && s.smart_selected
            &&& usable(b, Act::StartBypass) <==> free && !s.smart_selected && s.selected_strategy
                < s.core.strategies.len()
            &&& b.tone == Tone::Danger <==> usable(b, Act::StopBypass)
            &&& usable(test, Act::StartTest) <==> !s.test_running
            &&& usable(update, Act::CheckAndUpdate) <==> !s.update_busy
            &&& usable(lists, Act::OpenLists)
            &&& reset is Some <==> free && s.smart_selected && s.auto_best is Some
            &&& (reset matches Some(a) ==> a == Act::ResetAndRescan(s.game_filter))
        },
{
}

/// A selection that runs can be canceled in both views, and nothing else can be done.
pub proof fn a_selection_can_only_be_canceled(s: AppView)
    requires
        s.autoselect_running,
    ensures
        usable(simple_of(s, true).button, Act::CancelAutoselect),
        simple_of(s, true).reset is None,
        actions_of(s, true) matches ActionSpec::Selecting(line, b) && usable(
            b,
            Act::CancelAutoselect,
        ) && line == progress_of(s.autoselect_progress, "Подбираю "@, "Подбираю…"@),
{
}

/// The switch names the view that it leads to.
pub proof fn the_switch_names_the_other_view(s: AppView)
    requires
        !s.autoselect_running,
    ensures
        switch_label(s.simple_mode) == (if mode_switched(s).simple_mode {
            ("Простой режим"@, Icon::ChevronUp)
        } else {
            ("Расширенный режим"@, Icon::ChevronDown)
        }),
{
}

/// Each entry of a strategy bears the name of that strategy, and is marked exactly where it
/// is the one that is chosen and the choice is not automatic.
pub proof fn entries_name_their_strategies(s: AppView, j: int)
    requires
        s.core.strategies.len() <= usize::MAX,
        0 <= j < menu_items(s).len(),
    ensures
        menu_items(s)[j] matches ItemView::Pick(i, name, chosen) ==> i < s.core.strategies.len()
            && name == s.core.strategies[i as int].name && (chosen <==> !s.smart_selected
            && s.selected_strategy == i),
        menu_items(s)[j] matches ItemView::Smart(label, chosen) ==> j == 1 && (chosen
            <==> s.smart_selected) && (s.auto_best matches Some(n) ==> label == "smart("@ + n
            + ")"@),
{
    if j >= 3 {
        lemma_entries(s, s.core.strategies.len() as int, j - 3);
    }
}

proof fn lemma_entries(s: AppView, n: int, j: int)
    requires
        0 <= n <= s.core.strategies.len() <= usize::MAX,
        0 <= j < strategy_items(s, n).len(),
    ensures
        strategy_items(s, n)[j] !is Smart,
        strategy_items(s, n)[j] matches ItemView::Pick(i, name, chosen) ==> i < n && name
            == s.core.strategies[i as int].name && (chosen <==> !s.smart_selected
            && s.selected_strategy == i),
    decreases n,
{
    if n > 0 {
        let rest = strategy_items(s, n - 1);
        let head = group_head(s.core.strategies, n - 1);
        if j < rest.len() {
            lemma_entries(s, n - 1, j);
            assert(strategy_items(s, n)[j] == rest[j]);
        } else if j < rest.len() + head.len() {
            assert(strategy_items(s, n)[j] == head[j - rest.len()]);
        }
    }
}

/// Each group has its name above it: the entry of a strategy stands directly below that of
/// its predecessor where both are of one group, and otherwise below the name of its own
/// group, which a separator parts from the group before.
pub proof fn groups_bear_their_names(s: AppView, k: int)
    requires
        0 <= k < s.core.strategies.len(),
    ensures
        ({
            let list = s.core.strategies;
            let before = strategy_items(s, k);
            let now = strategy_items(s, k + 1);
            let n = now.len() as int;
            &&& now.take(before.len() as int) == before
            &&& now.last() is Pick
            &&& k > 0 && list[k].group == list[k - 1].group ==> n == before.len() + 1
            &&& k == 0 || list[k].group != list[k - 1].group ==> n >= before.len() + 2 && now[n
                - 2] == ItemView::Header(capitals(list[k].group))
            &&& k > 0 && list[k].group != list[k - 1].group ==> n == before.len() + 3 && now[n
                - 3] is Separator
        }),
{
    let before = strategy_items(s, k);
    assert(strategy_items(s, k + 1).take(before.len() as int) =~= before);
}

/// A position is shown as it is where there is such a strategy, and otherwise the first one
/// is shown.
pub proof fn the_shown_position_is_there(s: AppView)
    ensures
        s.core.strategies.len() > 0 ==> clamped(s).selected_strategy < s.core.strategies.len(),
        s.selected_strategy < s.core.strategies.len() ==> clamped(s) == s,
        s.selected_strategy >= s.core.strategies.len() ==> clamped(s).selected_strategy == 0,
        clamped(s) == (AppView { selected_strategy: clamped(s).selected_strategy, ..s }),
{
}

/// The editor shows the list that work is done on, the last status, and something in its
/// place where there is none.
pub proof fn the_editor_shows_the_chosen_list(s: AppView)
    ensures
        chosen_name(s) matches Some(n) ==> editor_texts(s).0 == n,
        editor_texts(s).1.len() > 0,
        s.lists_status.len() > 0 ==> editor_texts(s).1 == s.lists_status,
        editor_texts(s).2 == "Сохранить"@ <==> !s.lists_busy,
{
    reveal_strlit(" ");
    reveal_strlit("…");
    reveal_strlit("Сохранить");
    assert("…"@.len() == 1 && "Сохранить"@.len() == 9);
}

/// The interface believes the bypass, not the service: with what a look finds, the bypass
/// is shown as running exactly where the service runs and the look has found it running.
pub proof fn the_bypass_is_believed(s: AppView, authoritative: bool)
    ensures
        runs((AppView { status_desync: only_claims(s.service, authoritative), ..s }))
            <==> s.service is Running && authoritative,
        only_claims(s.service, authoritative) ==> s.service is Running && status_of(
            (AppView { status_desync: true, ..s }),
        ).1 == Tone::Danger,
        !(s.service is Running) ==> !only_claims(s.service, authoritative),
{
}

/// The closed menu shows what is chosen: its text is that of the entry that is marked, and
/// its entries are those that the menu of the state offers, each strategy once.
pub proof fn the_closed_menu_shows_the_choice(m: Menu, s: AppView, j: int)
    requires
        s.core.strategies.len() <= usize::MAX,
        shows(m, s),
        0 <= j < m.items@.len(),
    ensures
        m.items@[j]@ matches ItemView::Pick(_, name, true) ==> m.selected_text@ == name,
        m.items@[j]@ matches ItemView::Smart(label, true) ==> m.selected_text@ == label,
        picks(items_view(m.items@)) == Seq::new(s.core.strategies.len(), |i: int| i),
{
    assert(items_view(m.items@).len() == m.items@.len());
    assert(items_view(m.items@)[j] == m.items@[j]@);
    entries_name_their_strategies(s, j);
    the_menu_is_complete(s);
}

} // verus!
