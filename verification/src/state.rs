//! The state of the interface: what is chosen, what is running, and what follows from what
//! the user and the background do.
use vstd::prelude::*;

use crate::autoselect::AutoProgress;
use crate::config::{Config, SMART};
use crate::operation::{install_operation, remove_operation, switch_text, uninstall_operation};
use crate::operation::Operation;
use crate::order::{sort_by_keys, SortKey};
use crate::platform::ServiceState;
use crate::strategies::{find_named, CoreScan, Strategy};
use crate::text::{ascii_lowered, cat, cat3, copy_opt, copy_strings, decimal_text, ends_with};
use crate::text::{from_utf8_lossy, lines, same, strings, trim};

verus! {

use crate::autoselect::ProgressView;
use crate::cli::{changes_of_the_service_are_read, svc_of, SvcView};
use crate::config::ConfigView;
use crate::operation::{installing, removing, switch_word, uninstalling, OperationView};
use crate::order::{keys_view, parts_view, ranks_and_numbers_decide, sorted_stably};
use crate::order::{sorting_orders_and_keeps, text_lt, KeyView, PartView};
use crate::strategies::{index_named, lemma_index_named, the_first_of_a_name_is_found};
use crate::strategies::{CoreScanView, StrategyView};
use crate::text::{begins, decimal, ends, last_n, lines_of, lowered, lowering_changes_capitals_only};
use crate::text::{opt_text, text_of, texts, trimmed};

/// How many lines the log of the interface holds.
pub const LOG_CAP: usize = 500;

/// The state of the interface.
#[derive(Debug)]
pub struct ZaprustApp {
    pub core: CoreScan,
    pub selected_strategy: usize,
    pub game_filter: bool,
    pub ipset: bool,
    pub log_lines: Vec<String>,
    pub service: ServiceState,
    /// The targets are being tested.
    pub test_running: bool,
    /// An elevated operation is running.
    pub service_busy: bool,
    /// The last operation reported success, and yet the bypass does not run.
    pub op_failed: bool,
    /// The service runs, and yet the bypass does not.
    pub status_desync: bool,
    /// The core is being fetched or updated.
    pub update_busy: bool,
    /// The simple view.
    pub simple_mode: bool,
    /// The automatic choice is chosen.
    pub smart_selected: bool,
    /// The last winner of the auto-selection.
    pub auto_best: Option<String>,
    pub autoselect_running: bool,
    pub autoselect_progress: Option<AutoProgress>,
    /// The last auto-selection has found nothing.
    pub autoselect_no_result: bool,
    /// The editor of the lists is open.
    pub lists_open: bool,
    pub lists_files: Vec<String>,
    pub lists_sel: usize,
    pub lists_text: String,
    pub lists_status: String,
    /// A list is being written.
    pub lists_busy: bool,
}

/// The state of the interface as a mathematical value.
pub struct AppView {
    pub core: CoreScanView,
    pub selected_strategy: usize,
    pub game_filter: bool,
    pub ipset: bool,
    pub log_lines: Seq<Seq<char>>,
    pub service: ServiceState,
    pub test_running: bool,
    pub service_busy: bool,
    pub op_failed: bool,
    pub status_desync: bool,
    pub update_busy: bool,
    pub simple_mode: bool,
    pub smart_selected: bool,
    pub auto_best: Option<Seq<char>>,
    pub autoselect_running: bool,
    pub autoselect_progress: Option<ProgressView>,
    pub autoselect_no_result: bool,
    pub lists_open: bool,
    pub lists_files: Seq<Seq<char>>,
    pub lists_sel: usize,
    pub lists_text: Seq<char>,
    pub lists_status: Seq<char>,
    pub lists_busy: bool,
}

/// A report that may be there, as a mathematical value.
pub open spec fn opt_report(p: Option<AutoProgress>) -> Option<ProgressView> {
    match p {
        Some(p) => Some(p@),
        None => None,
    }
}

impl View for ZaprustApp {
    type V = AppView;

    open spec fn view(&self) -> AppView {
        AppView {
            core: self.core@,
            selected_strategy: self.selected_strategy,
            game_filter: self.game_filter,
            ipset: self.ipset,
            log_lines: texts(self.log_lines@),
            service: self.service,
            test_running: self.test_running,
            service_busy: self.service_busy,
            op_failed: self.op_failed,
            status_desync: self.status_desync,
            update_busy: self.update_busy,
            simple_mode: self.simple_mode,
            smart_selected: self.smart_selected,
            auto_best: opt_text(self.auto_best),
            autoselect_running: self.autoselect_running,
            autoselect_progress: opt_report(self.autoselect_progress),
            autoselect_no_result: self.autoselect_no_result,
            lists_open: self.lists_open,
            lists_files: texts(self.lists_files@),
            lists_sel: self.lists_sel,
            lists_text: self.lists_text@,
            lists_status: self.lists_status@,
            lists_busy: self.lists_busy,
        }
    }
}

// ── The start ───────────────────────────────────────────────────────────────

/// Whether a service is installed.
pub open spec fn is_installed(s: ServiceState) -> bool {
    s is Running || s is Stopped
}

/// The strategy that is restored: that of the installed service, otherwise the one of the
/// settings, unless they hold the automatic choice.
pub open spec fn restored(
    cfg: ConfigView,
    service: ServiceState,
    installed: Option<Seq<char>>,
) -> Option<Seq<char>> {
    if is_installed(service) {
        installed
    } else {
        match cfg.strategy {
            Some(n) => if n == SMART@ {
                None
            } else {
                Some(n)
            },
            None => None,
        }
    }
}

/// The position of a strategy that may be named, and otherwise the first one.
pub open spec fn position_of(list: Seq<StrategyView>, name: Option<Seq<char>>) -> usize {
    match name {
        Some(n) => match index_named(list, n) {
            Some(i) => i as usize,
            None => 0,
        },
        None => 0,
    }
}

/// The state at the start: `core` is what the scan found, `cfg` are the settings, `service`
/// is the state of the service, and `installed` the strategy that it was installed with.
pub open spec fn started(
    core: CoreScanView,
    cfg: ConfigView,
    service: ServiceState,
    installed: Option<Seq<char>>,
) -> AppView {
    let pick = restored(cfg, service, installed);
    AppView {
        core,
        selected_strategy: position_of(core.strategies, pick),
        game_filter: cfg.game_filter,
        ipset: cfg.ipset,
        log_lines: core.messages + seq!["zaprust: интерфейс запущен"@] + (if is_installed(service)
            && pick is Some {
            seq!["служба уже активна · стратегия: "@ + pick->0]
        } else {
            Seq::empty()
        }),
        service,
        test_running: false,
        service_busy: false,
        op_failed: false,
        status_desync: false,
        update_busy: false,
        simple_mode: cfg.simple_mode,
        smart_selected: cfg.strategy == Some(SMART@),
        auto_best: if cfg.auto_best is Some {
            cfg.auto_best
        } else if is_installed(service) {
            installed
        } else {
            None
        },
        autoselect_running: false,
        autoselect_progress: None,
        autoselect_no_result: false,
        lists_open: false,
        lists_files: Seq::empty(),
        lists_sel: 0,
        lists_text: ""@,
        lists_status: ""@,
        lists_busy: false,
    }
}

/// Whether a core is ready: it is there with its version, its engine and strategies.
pub open spec fn is_ready(core: CoreScanView, has_version: bool, has_engine: bool) -> bool {
    core.core_dir is Some && core.strategies.len() > 0 && has_version && has_engine
}

/// The settings that a state amounts to.
pub open spec fn settings(s: AppView) -> ConfigView {
    ConfigView {
        strategy: if s.smart_selected {
            Some(SMART@)
        } else if s.selected_strategy < s.core.strategies.len() {
            Some(s.core.strategies[s.selected_strategy as int].name)
        } else {
            None
        },
        auto_best: s.auto_best,
        game_filter: s.game_filter,
        ipset: s.ipset,
        simple_mode: s.simple_mode,
    }
}

/// The settings survive a restart: a start without a service, with the settings of a state
/// and over the same core, brings back its switches, its view, its last winner, and whether
/// the choice is automatic; where it is not, it brings back the chosen strategy by its name.
/// What would be saved next names the same choice, unless the position of the chosen
/// strategy lies behind the end of a list that holds some. A chosen strategy that bears the
/// name of the automatic choice is left out.
pub proof fn settings_survive_a_restart(
    s: AppView,
    service: ServiceState,
    installed: Option<Seq<char>>,
)
    requires
        !is_installed(service),
        s.core.strategies.len() <= usize::MAX,
        !s.smart_selected && s.selected_strategy < s.core.strategies.len()
            ==> s.core.strategies[s.selected_strategy as int].name != SMART@,
    ensures
        ({
            let t = started(s.core, settings(s), service, installed);
            let n = s.core.strategies.len();
            &&& t.smart_selected == s.smart_selected
            &&& t.auto_best == s.auto_best
            &&& t.game_filter == s.game_filter
            &&& t.ipset == s.ipset
            &&& t.simple_mode == s.simple_mode
            &&& !s.smart_selected && s.selected_strategy < n ==> t.selected_strategy < n
                && t.core.strategies[t.selected_strategy as int].name
                == s.core.strategies[s.selected_strategy as int].name
            &&& s.smart_selected || s.selected_strategy < n || n == 0 ==> settings(t).strategy
                == settings(s).strategy
        }),
{
    lemma_index_named(s.core.strategies, s.core.strategies[s.selected_strategy as int].name);
}

// ── What the background does ────────────────────────────────────────────────

/// An event of the editor of the lists.
#[derive(Debug)]
pub enum ListsEvent {
    SetText(String),
    Status(String),
}

/// An event of the editor as a mathematical value.
pub enum EventView {
    SetText(Seq<char>),
    Status(Seq<char>),
}

impl View for ListsEvent {
    type V = EventView;

    open spec fn view(&self) -> EventView {
        match self {
            ListsEvent::SetText(t) => EventView::SetText(t@),
            ListsEvent::Status(t) => EventView::Status(t@),
        }
    }
}

/// Events as mathematical values.
pub open spec fn events(v: Seq<ListsEvent>) -> Seq<EventView> {
    Seq::new(v.len(), |i: int| v[i]@)
}

/// The state after lines of the background: they are added to the log, and its oldest lines
/// go where there are too many.
pub open spec fn with_lines(s: AppView, ls: Seq<Seq<char>>) -> AppView {
    AppView { log_lines: last_n(s.log_lines + ls, LOG_CAP as nat), ..s }
}

/// The state with one more line in the log.
pub open spec fn with_log(s: AppView, line: Seq<char>) -> AppView {
    AppView { log_lines: s.log_lines.push(line), ..s }
}

/// The state after an event of the editor.
pub open spec fn with_event(s: AppView, e: EventView) -> AppView {
    match e {
        EventView::SetText(t) => AppView { lists_text: t, ..s },
        EventView::Status(t) => AppView { lists_status: t, ..s },
    }
}

/// The state after events of the editor.
pub open spec fn with_events(s: AppView, es: Seq<EventView>) -> AppView
    decreases es.len(),
{
    if es.len() == 0 {
        s
    } else {
        with_event(with_events(s, es.drop_last()), es.last())
    }
}

/// The position of the chosen strategy after a new scan: the strategy of the installed
/// service, and otherwise where it was, as far as there is such a position.
pub open spec fn rescanned_position(
    s: AppView,
    core: CoreScanView,
    installed: Option<Seq<char>>,
) -> usize {
    let kept: usize = if s.selected_strategy >= core.strategies.len() {
        0
    } else {
        s.selected_strategy
    };
    match installed {
        Some(n) => match index_named(core.strategies, n) {
            Some(i) => i as usize,
            None => kept,
        },
        None => kept,
    }
}

/// The state after a new scan, whose remarks go to the log.
pub open spec fn rescanned(
    s: AppView,
    core: CoreScanView,
    installed: Option<Seq<char>>,
) -> AppView {
    AppView {
        core,
        selected_strategy: rescanned_position(s, core, installed),
        log_lines: s.log_lines + core.messages,
        ..s
    }
}

/// Whether the settings are saved after a new scan: the strategy of the service is chosen.
pub open spec fn saves_after_rescan(core: CoreScanView, installed: Option<Seq<char>>) -> bool {
    installed matches Some(n) && index_named(core.strategies, n) is Some
}

/// The state after states of the service have come in: the last of them counts.
pub open spec fn with_states(s: AppView, states: Seq<ServiceState>) -> AppView {
    if states.len() == 0 {
        s
    } else {
        AppView { service: states.last(), ..s }
    }
}

/// The state after a successful auto-selection, whose winner the service says.
pub open spec fn with_winner(s: AppView, installed: Option<Seq<char>>) -> AppView {
    match installed {
        Some(n) => AppView { auto_best: Some(n), ..s },
        None => s,
    }
}

/// The state after a report of the auto-selection.
pub open spec fn with_report(s: AppView, p: ProgressView) -> AppView {
    AppView {
        autoselect_progress: Some(p),
        autoselect_no_result: s.autoselect_no_result || p.stage == "none"@,
        ..s
    }
}

/// The last line that holds something.
pub open spec fn last_line(ls: Seq<Seq<char>>) -> Option<Seq<char>>
    decreases ls.len(),
{
    if ls.len() == 0 {
        None
    } else if trimmed(ls.last()).len() > 0 {
        Some(ls.last())
    } else {
        last_line(ls.drop_last())
    }
}

/// The last report of the auto-selection in its file: the last line that holds something.
pub fn last_report(text: &str) -> (r: Option<String>)
    ensures
        opt_text(r) == last_line(lines_of(text@)),
{
    let all = lines(text);
    let ghost ls = texts(all@);
    let mut i: usize = all.len();
    assert(ls.take(i as int) =~= ls);
    while i > 0
        invariant
            i <= all@.len(),
            ls == texts(all@),
            ls == lines_of(text@),
            last_line(ls.take(i as int)) == last_line(ls),
        decreases i,
    {
        i -= 1;
        assert(ls.take(i + 1).last() == all@[i as int]@);
        assert(ls.take(i + 1).drop_last() =~= ls.take(i as int));
        if !trim(all[i].as_str()).is_empty() {
            return Some(all[i].clone());
        }
    }
    None
}

/// Adds strings to the end of a list.
fn extend(v: &mut Vec<String>, more: Vec<String>)
    ensures
        texts(final(v)@) == texts(old(v)@) + texts(more@),
{
    let mut more = more;
    let ghost before = texts(v@);
    let ghost added = texts(more@);
    v.append(&mut more);
    assert(texts(v@) =~= before + added);
}

/// Leaves only the last `n` strings of a list.
fn keep_last(v: &mut Vec<String>, n: usize)
    ensures
        texts(final(v)@) == last_n(texts(old(v)@), n as nat),
        final(v)@.len() <= n,
{
    if v.len() > n {
        let cut: usize = v.len() - n;
        let ghost all = texts(v@);
        let rest = v.split_off(cut);
        assert(texts(rest@) =~= all.skip(all.len() - n));
        *v = rest;
    }
}

// ── A frame ─────────────────────────────────────────────────────────────────

/// What a frame shows.
#[derive(Clone, Copy, Debug, PartialEq, Eq, Structural)]
pub enum Screen {
    Simple,
    Advanced,
    Lists,
}

/// What has come in since the last frame.
#[derive(Debug)]
pub struct Frame {
    /// Lines for the log.
    pub lines: Vec<String>,
    /// Events of the editor of the lists.
    pub events: Vec<ListsEvent>,
    /// A new scan, where one was asked for, and the strategy of the service.
    pub reload: Option<(CoreScan, Option<String>)>,
    /// States of the service.
    pub states: Vec<ServiceState>,
    /// How long ago the state was last asked for, in milliseconds.
    pub since_check_ms: u64,
    /// A successful auto-selection, and the strategy of the service.
    pub applied: Option<Option<String>>,
    /// The last report of the auto-selection.
    pub progress: Option<AutoProgress>,
}

/// What has come in, as a mathematical value.
pub struct FrameView {
    pub lines: Seq<Seq<char>>,
    pub events: Seq<EventView>,
    pub reload: Option<(CoreScanView, Option<Seq<char>>)>,
    pub states: Seq<ServiceState>,
    pub since_check_ms: u64,
    pub applied: Option<Option<Seq<char>>>,
    pub progress: Option<ProgressView>,
}

impl View for Frame {
    type V = FrameView;

    open spec fn view(&self) -> FrameView {
        FrameView {
            lines: texts(self.lines@),
            events: events(self.events@),
            reload: match self.reload {
                Some(p) => Some((p.0@, opt_text(p.1))),
                None => None,
            },
            states: self.states@,
            since_check_ms: self.since_check_ms,
            applied: match self.applied {
                Some(n) => Some(opt_text(n)),
                None => None,
            },
            progress: opt_report(self.progress),
        }
    }
}

/// What a frame is to do besides being drawn.
#[derive(Clone, Copy, Debug, PartialEq, Eq, Structural)]
pub struct Due {
    /// Save the settings.
    pub save: bool,
    /// Ask for the state of the service.
    pub check: bool,
    /// Draw again after so many milliseconds.
    pub repaint_ms: u64,
    pub screen: Screen,
}

/// The state up to the states of the service.
pub open spec fn frame_caught_up(s: AppView, f: FrameView) -> AppView {
    let a = with_events(with_lines(s, f.lines), f.events);
    let b = match f.reload {
        Some(p) => rescanned(a, p.0, p.1),
        None => a,
    };
    with_states(b, f.states)
}

/// The state after a frame has taken in what has come in.
pub open spec fn after_frame(s: AppView, f: FrameView) -> AppView {
    let a = frame_caught_up(s, f);
    let b = match f.applied {
        Some(n) => with_winner(a, n),
        None => a,
    };
    match f.progress {
        Some(p) => if b.autoselect_running {
            with_report(b, p)
        } else {
            b
        },
        None => b,
    }
}

/// What is due after that.
pub open spec fn due_in_frame(s: AppView, f: FrameView) -> Due {
    let t = after_frame(s, f);
    Due {
        save: (f.reload matches Some(p) && saves_after_rescan(p.0, p.1)) || (f.applied matches Some(
            n,
        ) && n is Some),
        check: f.since_check_ms >= 3000,
        repaint_ms: if t.autoselect_running || t.lists_busy || t.service_busy {
            200
        } else {
            1000
        },
        screen: if !t.simple_mode && t.lists_open {
            Screen::Lists
        } else if t.simple_mode {
            Screen::Simple
        } else {
            Screen::Advanced
        },
    }
}

// ── What the user does ──────────────────────────────────────────────────────

/// The state in which an elevated operation has begun.
pub open spec fn operation_begun(s: AppView, what: Seq<char>) -> AppView {
    with_log(
        AppView { service_busy: true, op_failed: false, ..s },
        what + ": запрашиваю права администратора (UAC)…"@,
    )
}

/// The last winner as the auto-selection gets it: only where it is still there.
pub open spec fn known_good(s: AppView, use_lkg: bool) -> Seq<char> {
    if use_lkg && s.auto_best is Some && index_named(s.core.strategies, s.auto_best->0) is Some {
        s.auto_best->0
    } else {
        ""@
    }
}

/// The state in which an auto-selection runs.
pub open spec fn selection_begun(s: AppView) -> AppView {
    with_log(
        AppView {
            autoselect_running: true,
            autoselect_no_result: false,
            autoselect_progress: None,
            ..s
        },
        "автоподбор: запрашиваю права администратора (UAC)…"@,
    )
}

/// The arguments of an elevated auto-selection.
pub open spec fn selection_args(s: AppView, use_lkg: bool, gf: bool) -> Seq<Seq<char>> {
    seq!["--autoselect"@, switch_word(gf), known_good(s, use_lkg)]
}

// ── What follows from what the user asks for ────────────────────────────────

/// An operation that may be there, as a mathematical value.
pub open spec fn opt_operation(o: Option<Operation>) -> Option<OperationView> {
    match o {
        Some(o) => Some(o@),
        None => None,
    }
}

/// Arguments that may be there, as mathematical values.
pub open spec fn opt_args(v: Option<Vec<String>>) -> Option<Seq<Seq<char>>> {
    match v {
        Some(v) => Some(texts(v@)),
        None => None,
    }
}

/// What comes of an operation that is asked for: it begins unless another one runs.
pub open spec fn operation_asked(s: AppView, op: OperationView) -> (Option<OperationView>, AppView) {
    if s.service_busy {
        (None, s)
    } else {
        (Some(op), operation_begun(s, op.what))
    }
}

/// What comes of the start that is asked for: the chosen strategy is installed.
pub open spec fn start_asked(s: AppView) -> (Option<OperationView>, AppView) {
    if s.selected_strategy >= s.core.strategies.len() {
        (None, with_log(s, "ошибка: стратегия не выбрана"@))
    } else {
        operation_asked(
            s,
            installing(s.core.strategies[s.selected_strategy as int].name, s.game_filter),
        )
    }
}

/// What comes of an auto-selection that is asked for.
pub open spec fn selection_asked(s: AppView, use_lkg: bool, gf: bool, ready: bool) -> (
    Option<Seq<Seq<char>>>,
    AppView,
) {
    if s.autoselect_running || !ready {
        (None, s)
    } else {
        (Some(selection_args(s, use_lkg, gf)), selection_begun(s))
    }
}

/// What comes of a full run that is asked for: the settings to save, the arguments, and the
/// state.
pub open spec fn full_run_asked(s: AppView, gf: bool, ready: bool) -> (
    ConfigView,
    Option<Seq<Seq<char>>>,
    AppView,
) {
    let t = AppView { auto_best: None, ..s };
    let u = selection_asked(
        with_log(t, "автоподбор: сброшена прошлая стратегия, полный прогон"@),
        false,
        gf,
        ready,
    );
    (settings(t), u.0, u.1)
}

/// What comes of a test that is asked for: whether it begins, and the state.
pub open spec fn test_asked(s: AppView, targets: nat) -> (bool, AppView) {
    if s.test_running {
        (false, s)
    } else {
        (
            true,
            with_log(
                AppView { test_running: true, ..s },
                "тест: проверяю "@ + decimal(targets) + " целей…"@,
            ),
        )
    }
}

/// What comes of a download or an update that is asked for: whether it begins, and the
/// state.
pub open spec fn update_asked(s: AppView) -> (bool, AppView) {
    (!s.update_busy, AppView { update_busy: true, ..s })
}

/// The state with a strategy chosen by its position.
pub open spec fn with_choice(s: AppView, i: usize) -> AppView {
    AppView { selected_strategy: i, smart_selected: false, ..s }
}

/// The state with the automatic choice.
pub open spec fn with_smart(s: AppView) -> AppView {
    AppView { smart_selected: true, ..s }
}

/// The state after the view has been changed.
pub open spec fn mode_switched(s: AppView) -> AppView {
    if s.autoselect_running {
        s
    } else {
        AppView { simple_mode: !s.simple_mode, ..s }
    }
}

/// What comes of work on the chosen list that is asked for: its name where it begins, and
/// the state, which says what is being done.
pub open spec fn list_work_asked(s: AppView, status: Seq<char>) -> (Option<Seq<char>>, AppView) {
    if s.lists_busy || chosen_name(s) is None {
        (None, s)
    } else {
        (chosen_name(s), AppView { lists_busy: true, lists_status: status, ..s })
    }
}

/// What comes of another list being chosen: whether it is to be read, and the state.
pub open spec fn list_chosen(s: AppView, i: usize) -> (bool, AppView) {
    if i == s.lists_sel {
        (false, s)
    } else {
        (true, AppView { lists_sel: i, lists_status: ""@, lists_text: ""@, ..s })
    }
}

/// The state after the chosen list was read: its text, or why it could not be read.
pub open spec fn list_read(s: AppView, read: Result<Seq<char>, Seq<char>>) -> AppView {
    match read {
        Ok(t) => AppView { lists_text: t, ..s },
        Err(e) => AppView { lists_text: ""@, lists_status: "ошибка чтения: "@ + e, ..s },
    }
}

/// What an update is asked for with.
#[derive(Debug)]
pub struct UpdateRequest {
    pub core_dir: Option<String>,
    pub strategy: Option<String>,
    pub game_filter: bool,
}

impl ZaprustApp {
    /// The state at the start.
    pub fn new(
        core: CoreScan,
        cfg: &Config,
        service: ServiceState,
        installed: Option<String>,
    ) -> (r: ZaprustApp)
        ensures
            r@ == started(core@, cfg@, service, opt_text(installed)),
    {
        let mut log_lines = copy_strings(&core.messages);
        let ghost said = texts(log_lines@);
        log_lines.push("zaprust: интерфейс запущен".to_owned());
        assert(texts(log_lines@) =~= said + seq!["zaprust: интерфейс запущен"@]);
        let ghost greeted = texts(log_lines@);
        let smart_selected = match &cfg.strategy {
            Some(n) => same(n.as_str(), SMART),
            None => false,
        };
        let there = service.installed();
        let auto_best = match &cfg.auto_best {
            Some(n) => Some(n.clone()),
            None => if there {
                copy_opt(&installed)
            } else {
                None
            },
        };
        let pick = if there {
            installed
        } else if smart_selected {
            None
        } else {
            copy_opt(&cfg.strategy)
        };
        assert(opt_text(pick) == restored(cfg@, service, opt_text(installed)));
        let mut selected_strategy: usize = 0;
        match &pick {
            Some(n) => {
                match find_named(&core.strategies, n.as_str()) {
                    Some(i) => {
                        selected_strategy = i;
                    },
                    None => {},
                }
                if there {
                    log_lines.push(cat("служба уже активна · стратегия: ", n.as_str()));
                    assert(texts(log_lines@) =~= greeted + seq![
                        "служба уже активна · стратегия: "@ + n@,
                    ]);
                }
            },
            None => {},
        }
        assert(greeted + Seq::<Seq<char>>::empty() =~= greeted);
        let none: Vec<String> = Vec::new();
        assert(texts(none@) =~= Seq::<Seq<char>>::empty());
        ZaprustApp {
            core,
            selected_strategy,
            game_filter: cfg.game_filter,
            ipset: cfg.ipset,
            log_lines,
            service,
            test_running: false,
            service_busy: false,
            op_failed: false,
            status_desync: false,
            update_busy: false,
            simple_mode: cfg.simple_mode,
            smart_selected,
            auto_best,
            autoselect_running: false,
            autoselect_progress: None,
            autoselect_no_result: false,
            lists_open: false,
            lists_files: none,
            lists_sel: 0,
            lists_text: "".to_owned(),
            lists_status: "".to_owned(),
            lists_busy: false,
        }
    }

    /// The settings to save.
    pub fn save_config(&self) -> (r: Config)
        ensures
            r@ == settings(self@),
    {
        let strategy = if self.smart_selected {
            Some(SMART.to_owned())
        } else {
            match self.current_strategy() {
                Some(s) => Some(s.name.clone()),
                None => None,
            }
        };
        Config {
            strategy,
            auto_best: copy_opt(&self.auto_best),
            game_filter: self.game_filter,
            ipset: self.ipset,
            simple_mode: self.simple_mode,
        }
    }

    /// Whether the core is ready: it is there with its version, its engine and strategies.
    pub fn core_ready(&self, has_version: bool, has_engine: bool) -> (r: bool)
        ensures
            r == (self@.core.core_dir is Some && self@.core.strategies.len() > 0 && has_version
                && has_engine),
            r == is_ready(self@.core, has_version, has_engine),
    {
        assert(self@.core.strategies.len() == self.core.strategies@.len());
        match &self.core.core_dir {
            None => false,
            Some(_) => self.core.strategies.len() > 0 && has_version && has_engine,
        }
    }

    /// The chosen strategy, if there is one.
    pub fn current_strategy(&self) -> (r: Option<&Strategy>)
        ensures
            match r {
                Some(s) => self.selected_strategy < self@.core.strategies.len() && s@
                    == self@.core.strategies[self.selected_strategy as int],
                None => self.selected_strategy >= self@.core.strategies.len(),
            },
    {
        if self.selected_strategy < self.core.strategies.len() {
            Some(&self.core.strategies[self.selected_strategy])
        } else {
            None
        }
    }

    /// Whether the bypass runs: the service does, and nothing speaks against it.
    pub fn is_running(&self) -> (r: bool)
        ensures
            r == (self.service is Running && !self.status_desync),
    {
        match self.service {
            ServiceState::Running => !self.status_desync,
            _ => false,
        }
    }

    /// Adds a line to the log.
    pub fn log(&mut self, msg: &str)
        ensures
            final(self)@ == with_log(old(self)@, msg@),
    {
        let ghost before = texts(self.log_lines@);
        self.log_lines.push(msg.to_owned());
        assert(texts(self.log_lines@) =~= before.push(msg@));
    }

    /// Adds the lines of the background to the log, which keeps the latest ones.
    pub fn drain_log(&mut self, lines: Vec<String>)
        ensures
            final(self)@ == with_lines(old(self)@, texts(lines@)),
            final(self)@.log_lines.len() <= LOG_CAP,
    {
        extend(&mut self.log_lines, lines);
        keep_last(&mut self.log_lines, LOG_CAP);
    }

    /// Takes a new scan in. The result says whether the settings are to be saved.
    pub fn reload_core(&mut self, core: CoreScan, installed: &Option<String>) -> (r: bool)
        ensures
            final(self)@ == rescanned(old(self)@, core@, opt_text(*installed)),
            r == saves_after_rescan(core@, opt_text(*installed)),
    {
        let more = copy_strings(&core.messages);
        assert(core@.strategies.len() == core.strategies@.len());
        let mut position: usize = if self.selected_strategy >= core.strategies.len() {
            0
        } else {
            self.selected_strategy
        };
        let mut save = false;
        match installed {
            Some(n) => {
                match find_named(&core.strategies, n.as_str()) {
                    Some(i) => {
                        position = i;
                        save = true;
                    },
                    None => {},
                }
            },
            None => {},
        }
        assert(position == rescanned_position(self@, core@, opt_text(*installed)));
        extend(&mut self.log_lines, more);
        self.selected_strategy = position;
        self.core = core;
        save
    }

    /// Takes states of the service in: the last of them counts.
    pub fn take_states(&mut self, states: &[ServiceState])
        ensures
            final(self)@ == with_states(old(self)@, states@),
    {
        if states.len() > 0 {
            self.service = states[states.len() - 1];
        }
    }

    /// Takes the winner of an auto-selection in. The result says whether the settings are to
    /// be saved.
    pub fn take_winner(&mut self, installed: Option<String>) -> (r: bool)
        ensures
            final(self)@ == with_winner(old(self)@, opt_text(installed)),
            r == installed is Some,
    {
        match installed {
            Some(n) => {
                self.auto_best = Some(n);
                true
            },
            None => false,
        }
    }

    /// Takes an event of the editor of the lists in.
    pub fn take_event(&mut self, e: &ListsEvent)
        ensures
            final(self)@ == with_event(old(self)@, e@),
    {
        match e {
            ListsEvent::SetText(t) => {
                self.lists_text = t.clone();
            },
            ListsEvent::Status(t) => {
                self.lists_status = t.clone();
            },
        }
    }

    /// Takes events of the editor of the lists in, in their order.
    pub fn take_events(&mut self, es: &[ListsEvent])
        ensures
            final(self)@ == with_events(old(self)@, events(es@)),
    {
        let ghost all = events(es@);
        let ghost s = self@;
        let mut i: usize = 0;
        assert(all.take(0) =~= Seq::<EventView>::empty());
        while i < es.len()
            invariant
                i <= es@.len(),
                all == events(es@),
                self@ == with_events(s, all.take(i as int)),
            decreases es@.len() - i,
        {
            proof {
                assert(all.take(i + 1).drop_last() =~= all.take(i as int));
                assert(all.take(i + 1).last() == es@[i as int]@);
            }
            self.take_event(&es[i]);
            i += 1;
        }
        assert(all.take(all.len() as int) =~= all);
    }

    /// Takes in what has come in since the last frame, and says what is due.
    pub fn update(&mut self, f: Frame) -> (r: Due)
        ensures
            final(self)@ == after_frame(old(self)@, f@),
            r == due_in_frame(old(self)@, f@),
    {
        let Frame { lines, events: es, reload, states, since_check_ms, applied, progress } = f;
        let mut save = false;
        self.drain_log(lines);
        self.take_events(&es);
        match reload {
            Some(p) => {
                let (core, installed) = p;
                save = self.reload_core(core, &installed);
            },
            None => {},
        }
        self.take_states(&states);
        match applied {
            Some(name) => {
                if self.take_winner(name) {
                    save = true;
                }
            },
            None => {},
        }
        if self.autoselect_running {
            match progress {
                Some(p) => {
                    self.take_progress(p);
                },
                None => {},
            }
        }
        let repaint_ms: u64 = if self.autoselect_running || self.lists_busy || self.service_busy {
            200
        } else {
            1000
        };
        let screen = if !self.simple_mode && self.lists_open {
            Screen::Lists
        } else if self.simple_mode {
            Screen::Simple
        } else {
            Screen::Advanced
        };
        Due { save, check: since_check_ms >= 3000, repaint_ms, screen }
    }

    /// Takes a report of the auto-selection in.
    pub fn take_progress(&mut self, p: AutoProgress)
        ensures
            final(self)@ == with_report(old(self)@, p@),
    {
        if same(p.stage.as_str(), "none") {
            self.autoselect_no_result = true;
        }
        self.autoselect_progress = Some(p);
    }

    // ── The core ────────────────────────────────────────────────────────────

    /// Begins to fetch the core, unless that or an update is under way already. The result
    /// says whether it begins.
    pub fn download_core(&mut self) -> (r: bool)
        ensures
            r == !old(self).update_busy,
            final(self)@ == (AppView { update_busy: true, ..old(self)@ }),
            (r, final(self)@) == update_asked(old(self)@),
    {
        let begins = !self.update_busy;
        self.update_busy = true;
        begins
    }

    /// Begins an update, unless one or the download is under way already.
    pub fn check_and_update(&mut self) -> (r: Option<UpdateRequest>)
        ensures
            r is Some == !old(self).update_busy,
            r matches Some(q) ==> opt_text(q.core_dir) == old(self)@.core.core_dir && opt_text(
                q.strategy,
            ) == (if old(self)@.selected_strategy < old(self)@.core.strategies.len() {
                Some(old(self)@.core.strategies[old(self)@.selected_strategy as int].name)
            } else {
                None
            }) && q.game_filter == old(self)@.game_filter,
            final(self)@ == (AppView { update_busy: true, ..old(self)@ }),
            (r is Some, final(self)@) == update_asked(old(self)@),
    {
        if self.update_busy {
            return None;
        }
        let strategy = match self.current_strategy() {
            Some(s) => Some(s.name.clone()),
            None => None,
        };
        let core_dir = copy_opt(&self.core.core_dir);
        let game_filter = self.game_filter;
        self.update_busy = true;
        Some(UpdateRequest { core_dir, strategy, game_filter })
    }

    // ── The test of the targets ─────────────────────────────────────────────

    /// Begins a test of so many targets, unless one is under way already.
    pub fn start_test(&mut self, targets: usize) -> (r: bool)
        ensures
            r == !old(self).test_running,
            final(self)@ == (if old(self).test_running {
                old(self)@
            } else {
                with_log(
                    (AppView { test_running: true, ..old(self)@ }),
                    "тест: проверяю "@ + decimal(targets as nat) + " целей…"@,
                )
            }),
            (r, final(self)@) == test_asked(old(self)@, targets as nat),
    {
        if self.test_running {
            return false;
        }
        self.test_running = true;
        self.log(
            cat3("тест: проверяю ", decimal_text(targets as u64).as_str(), " целей…").as_str(),
        );
        true
    }

    // ── The bypass ──────────────────────────────────────────────────────────

    /// Begins an elevated operation, unless one is under way already. The result says
    /// whether it begins.
    pub fn run_service_elevated(&mut self, op: &Operation) -> (r: bool)
        ensures
            r == !old(self).service_busy,
            final(self)@ == (if old(self).service_busy {
                old(self)@
            } else {
                operation_begun(old(self)@, op.what@)
            }),
            final(self)@ == operation_asked(old(self)@, op@).1,
            r == operation_asked(old(self)@, op@).0 is Some,
    {
        if self.service_busy {
            return false;
        }
        self.service_busy = true;
        self.op_failed = false;
        self.log(cat(op.what.as_str(), ": запрашиваю права администратора (UAC)…").as_str());
        true
    }

    /// Begins to start the bypass with the chosen strategy.
    pub fn start_bypass(&mut self) -> (r: Option<Operation>)
        ensures
            ({
                let s = old(self)@;
                let n = s.core.strategies[s.selected_strategy as int].name;
                let what = "запуск обхода · "@ + n;
                if s.selected_strategy >= s.core.strategies.len() {
                    r is None && final(self)@ == with_log(s, "ошибка: стратегия не выбрана"@)
                } else if s.service_busy {
                    r is None && final(self)@ == s
                } else {
                    &&& r matches Some(o)
                    &&& o@ == (OperationView {
                        args: seq!["--svc"@, "install"@, n, switch_word(s.game_filter)],
                        what,
                    })
                    &&& final(self)@ == operation_begun(s, what)
                }
            }),
            (opt_operation(r), final(self)@) == start_asked(old(self)@),
    {
        let op = match self.current_strategy() {
            Some(s) => Some(install_operation(s.name.as_str(), self.game_filter)),
            None => None,
        };
        match op {
            None => {
                self.log("ошибка: стратегия не выбрана");
                None
            },
            Some(o) => if self.run_service_elevated(&o) {
                Some(o)
            } else {
                None
            },
        }
    }

    /// Begins to stop the bypass.
    pub fn stop_bypass(&mut self) -> (r: Option<Operation>)
        ensures
            old(self).service_busy ==> r is None && final(self)@ == old(self)@,
            !old(self).service_busy ==> (r matches Some(o) && o@ == (OperationView {
                args: seq!["--svc"@, "remove"@],
                what: "остановка обхода"@,
            }) && final(self)@ == operation_begun(old(self)@, "остановка обхода"@)),
            (opt_operation(r), final(self)@) == operation_asked(old(self)@, removing()),
    {
        let op = remove_operation();
        if self.run_service_elevated(&op) {
            Some(op)
        } else {
            None
        }
    }

    /// Begins to remove the service and the driver.
    pub fn uninstall_all(&mut self) -> (r: Option<Operation>)
        ensures
            old(self).service_busy ==> r is None && final(self)@ == old(self)@,
            !old(self).service_busy ==> (r matches Some(o) && o@ == (OperationView {
                args: seq!["--svc"@, "uninstall"@],
                what: "удаление службы и драйвера"@,
            }) && final(self)@ == operation_begun(old(self)@, "удаление службы и драйвера"@)),
            (opt_operation(r), final(self)@) == operation_asked(old(self)@, uninstalling()),
    {
        let op = uninstall_operation();
        if self.run_service_elevated(&op) {
            Some(op)
        } else {
            None
        }
    }

    // ── The auto-selection ──────────────────────────────────────────────────

    /// Begins an auto-selection, unless one is under way already or the core is not ready.
    /// The result are the arguments of the elevated run.
    pub fn start_autoselect(&mut self, use_lkg: bool, game_filter: bool, ready: bool) -> (r: Option<
        Vec<String>,
    >)
        ensures
            ({
                let s = old(self)@;
                if s.autoselect_running || !ready {
                    r is None && final(self)@ == s
                } else {
                    &&& r matches Some(v)
                    &&& texts(v@) == selection_args(s, use_lkg, game_filter)
                    &&& final(self)@ == selection_begun(s)
                }
            }),
            (opt_args(r), final(self)@) == selection_asked(old(self)@, use_lkg, game_filter, ready),
    {
        if self.autoselect_running || !ready {
            return None;
        }
        let ghost s = self@;
        self.autoselect_running = true;
        self.autoselect_no_result = false;
        self.autoselect_progress = None;
        let mut lkg = "".to_owned();
        if use_lkg {
            match &self.auto_best {
                Some(n) => match find_named(&self.core.strategies, n.as_str()) {
                    Some(_) => {
                        lkg = n.clone();
                    },
                    None => {},
                },
                None => {},
            }
        }
        assert(lkg@ == known_good(s, use_lkg));
        assert(self@ == (AppView {
            autoselect_running: true,
            autoselect_no_result: false,
            autoselect_progress: None,
            ..s
        }));
        self.log("автоподбор: запрашиваю права администратора (UAC)…");
        let v = strings(&["--autoselect", switch_text(game_filter), lkg.as_str()]);
        assert(texts(v@) =~= selection_args(s, use_lkg, game_filter));
        assert(self@ == selection_begun(s));
        Some(v)
    }

    /// Says that the auto-selection is being canceled.
    pub fn cancel_autoselect(&mut self)
        ensures
            final(self)@ == with_log(old(self)@, "автоподбор: отмена…"@),
    {
        self.log("автоподбор: отмена…");
    }

    /// Forgets the last winner and begins an auto-selection over all strategies. The result
    /// are the settings to save, and the arguments of the elevated run.
    pub fn reset_and_rescan(&mut self, game_filter: bool, ready: bool) -> (r: (
        Config,
        Option<Vec<String>>,
    ))
        ensures
            ({
                let s = (AppView { auto_best: None, ..old(self)@ });
                let t = with_log(s, "автоподбор: сброшена прошлая стратегия, полный прогон"@);
                &&& r.0@ == settings(s)
                &&& if s.autoselect_running || !ready {
                    r.1 is None && final(self)@ == t
                } else {
                    &&& r.1 matches Some(v)
                    &&& texts(v@) == selection_args(t, false, game_filter)
                    &&& final(self)@ == selection_begun(t)
                }
            }),
            (r.0@, opt_args(r.1), final(self)@) == full_run_asked(old(self)@, game_filter, ready),
    {
        self.auto_best = None;
        let cfg = self.save_config();
        self.log("автоподбор: сброшена прошлая стратегия, полный прогон");
        let args = self.start_autoselect(false, game_filter, ready);
        (cfg, args)
    }

    // ── Logs and diagnostics ────────────────────────────────────────────────

    /// Says where the logs are, if that is known.
    pub fn open_logs_folder(&mut self, dir: Option<&str>)
        ensures
            final(self)@ == with_log(
                old(self)@,
                match dir {
                    Some(d) => "логи: "@ + d@,
                    None => "папка логов не определена"@,
                },
            ),
    {
        match dir {
            Some(d) => {
                self.log(cat("логи: ", d).as_str());
            },
            None => {
                self.log("папка логов не определена");
            },
        }
    }

    /// Says whether the diagnostics could be copied.
    pub fn copy_diagnostics(&mut self, copied: bool)
        ensures
            final(self)@ == with_log(
                old(self)@,
                if copied {
                    "диагностика скопирована в буфер обмена"@
                } else {
                    "не удалось скопировать диагностику"@
                },
            ),
    {
        if copied {
            self.log("диагностика скопирована в буфер обмена");
        } else {
            self.log("не удалось скопировать диагностику");
        }
    }

    // ── The choices ─────────────────────────────────────────────────────────

    /// Chooses the automatic choice. The result says whether the settings are to be saved.
    pub fn choose_smart(&mut self) -> (r: bool)
        ensures
            r == !old(self).smart_selected,
            final(self)@ == (AppView { smart_selected: true, ..old(self)@ }),
            final(self)@ == with_smart(old(self)@),
    {
        let changed = !self.smart_selected;
        self.smart_selected = true;
        changed
    }

    /// Chooses a strategy; the settings are then to be saved.
    pub fn choose_strategy(&mut self, i: usize)
        ensures
            final(self)@ == (AppView {
                selected_strategy: i,
                smart_selected: false,
                ..old(self)@
            }),
            final(self)@ == with_choice(old(self)@, i),
    {
        self.selected_strategy = i;
        self.smart_selected = false;
    }

    /// Changes between the simple view and the other one, unless an auto-selection runs.
    /// The result says whether the settings are to be saved.
    pub fn switch_mode(&mut self) -> (r: bool)
        ensures
            r == !old(self).autoselect_running,
            final(self)@ == (if old(self).autoselect_running {
                old(self)@
            } else {
                AppView { simple_mode: !old(self).simple_mode, ..old(self)@ }
            }),
            final(self)@ == mode_switched(old(self)@),
            r == (settings(final(self)@) != settings(old(self)@)),
    {
        if self.autoselect_running {
            return false;
        }
        self.simple_mode = !self.simple_mode;
        true
    }

    // ── The editor of the lists ─────────────────────────────────────────────

    /// Opens the editor over the files of the directory of the lists: none where it cannot
    /// be read. What is chosen is then to be read.
    pub fn open_lists(&mut self, names: Option<Vec<String>>)
        ensures
            ({
                let all = offered(names);
                let files = final(self)@.lists_files;
                &&& exists|p: Seq<int>| sorted_stably(all, name_keys(all), files, p)
                &&& final(self)@ == (AppView {
                    lists_open: true,
                    lists_status: ""@,
                    lists_files: files,
                    lists_sel: if old(self).lists_sel >= files.len() {
                        0
                    } else {
                        old(self).lists_sel
                    },
                    lists_text: ""@,
                    ..old(self)@
                })
            }),
    {
        let ghost all = offered(names);
        let files = match &names {
            Some(v) => list_files(v),
            None => {
                let v: Vec<String> = Vec::new();
                assert(texts(v@) =~= Seq::<Seq<char>>::empty());
                list_files(&v)
            },
        };
        let ghost p = choose|p: Seq<int>| sorted_stably(all, name_keys(all), texts(files@), p);
        assert(texts(files@).len() == files@.len());
        let sel: usize = if self.lists_sel >= files.len() {
            0
        } else {
            self.lists_sel
        };
        self.lists_open = true;
        self.lists_status = "".to_owned();
        self.lists_files = files;
        self.lists_sel = sel;
        self.lists_text = "".to_owned();
        assert(sorted_stably(all, name_keys(all), self@.lists_files, p));
    }

    /// Chooses a list. The result says whether it is to be read.
    pub fn choose_list(&mut self, i: usize) -> (r: bool)
        ensures
            r == (i != old(self).lists_sel),
            final(self)@ == (if r {
                AppView { lists_sel: i, lists_status: ""@, lists_text: ""@, ..old(self)@ }
            } else {
                old(self)@
            }),
            (r, final(self)@) == list_chosen(old(self)@, i),
    {
        if i == self.lists_sel {
            return false;
        }
        self.lists_sel = i;
        self.lists_status = "".to_owned();
        self.lists_text = "".to_owned();
        true
    }

    /// The chosen list by its name, if there is a directory of the lists.
    pub fn chosen_list(&self) -> (r: Option<String>)
        ensures
            opt_text(r) == chosen_name(self@),
    {
        assert(self@.lists_files.len() == self.lists_files@.len());
        match &self.core.core_dir {
            None => None,
            Some(_) => if self.lists_sel < self.lists_files.len() {
                Some(self.lists_files[self.lists_sel].clone())
            } else {
                None
            },
        }
    }

    /// Takes in what was read of the chosen list.
    pub fn load_selected_list(&mut self, read: Result<Vec<u8>, String>)
        ensures
            final(self)@ == (match read {
                Ok(bytes) => AppView { lists_text: text_of(bytes@), ..old(self)@ },
                Err(e) => AppView {
                    lists_text: ""@,
                    lists_status: "ошибка чтения: "@ + e@,
                    ..old(self)@
                },
            }),
            final(self)@ == list_read(
                old(self)@,
                match read {
                    Ok(bytes) => Ok(text_of(bytes@)),
                    Err(e) => Err(e@),
                },
            ),
    {
        match read {
            Ok(bytes) => {
                self.lists_text = from_utf8_lossy(&bytes);
            },
            Err(e) => {
                self.lists_text = "".to_owned();
                self.lists_status = cat("ошибка чтения: ", e.as_str());
            },
        }
    }

    /// Begins to save the chosen list, unless one is being written already. The result is
    /// its name.
    pub fn save_list(&mut self) -> (r: Option<String>)
        ensures
            ({
                let s = old(self)@;
                if s.lists_busy || chosen_name(s) is None {
                    r is None && final(self)@ == s
                } else {
                    opt_text(r) == chosen_name(s) && final(self)@ == (AppView {
                        lists_busy: true,
                        lists_status: "сохраняю…"@,
                        ..s
                    })
                }
            }),
            (opt_text(r), final(self)@) == list_work_asked(old(self)@, "сохраняю…"@),
    {
        if self.lists_busy {
            return None;
        }
        let name = self.chosen_list();
        if name.is_some() {
            self.lists_busy = true;
            self.lists_status = "сохраняю…".to_owned();
        }
        name
    }

    /// Begins to bring the chosen list back to the published one, unless one is being
    /// written already. The result is its name.
    pub fn revert_list(&mut self) -> (r: Option<String>)
        ensures
            ({
                let s = old(self)@;
                if s.lists_busy || chosen_name(s) is None {
                    r is None && final(self)@ == s
                } else {
                    opt_text(r) == chosen_name(s) && final(self)@ == (AppView {
                        lists_busy: true,
                        lists_status: "откат: скачиваю стандартный…"@,
                        ..s
                    })
                }
            }),
            (opt_text(r), final(self)@) == list_work_asked(
                old(self)@,
                "откат: скачиваю стандартный…"@,
            ),
    {
        if self.lists_busy {
            return None;
        }
        let name = self.chosen_list();
        if name.is_some() {
            self.lists_busy = true;
            self.lists_status = "откат: скачиваю стандартный…".to_owned();
        }
        name
    }
}

/// The chosen list by its name, if there is a directory of the lists.
pub open spec fn chosen_name(s: AppView) -> Option<Seq<char>> {
    if s.core.core_dir is Some && s.lists_sel < s.lists_files.len() {
        Some(s.lists_files[s.lists_sel as int])
    } else {
        None
    }
}

/// The names that end in `.txt`, in capital letters or not.
pub open spec fn listed(names: Seq<Seq<char>>) -> Seq<Seq<char>>
    decreases names.len(),
{
    if names.len() == 0 {
        Seq::empty()
    } else if ends(lowered(names.last()), ".txt"@) {
        listed(names.drop_last()).push(names.last())
    } else {
        listed(names.drop_last())
    }
}

/// The lists of a directory: none where it cannot be read.
pub open spec fn offered(names: Option<Vec<String>>) -> Seq<Seq<char>> {
    match names {
        Some(v) => listed(texts(v@)),
        None => Seq::empty(),
    }
}

/// The keys by which names are sorted: themselves.
pub open spec fn name_keys(names: Seq<Seq<char>>) -> Seq<KeyView> {
    Seq::new(names.len(), |i: int| (0nat, seq![(0nat, names[i])]))
}

/// The names that end in `.txt`, sorted.
pub fn list_files(names: &[String]) -> (r: Vec<String>)
    ensures
        exists|p: Seq<int>|
            sorted_stably(listed(texts(names@)), name_keys(listed(texts(names@))), texts(r@), p),
{
    let ghost ns = texts(names@);
    let mut kept: Vec<String> = Vec::new();
    let mut keys: Vec<SortKey> = Vec::new();
    let mut i: usize = 0;
    assert(ns.take(0) =~= Seq::<Seq<char>>::empty());
    while i < names.len()
        invariant
            i <= names@.len(),
            ns == texts(names@),
            texts(kept@) == listed(ns.take(i as int)),
            keys@.len() == kept@.len(),
            forall|k: int|
                0 <= k < kept@.len() ==> (#[trigger] keys@[k])@ == (
                    0nat,
                    seq![(0nat, kept@[k]@)],
                ),
        decreases names@.len() - i,
    {
        let ghost before = texts(kept@);
        proof {
            assert(ns.take(i + 1).drop_last() =~= ns.take(i as int));
            assert(ns.take(i + 1).last() == names@[i as int]@);
        }
        if ends_with(ascii_lowered(names[i].as_str()).as_str(), ".txt") {
            kept.push(names[i].clone());
            assert(texts(kept@) =~= before.push(names@[i as int]@));
            let mut parts: Vec<(u64, String)> = Vec::new();
            parts.push((0, names[i].clone()));
            assert(parts_view(parts@) =~= seq![(0nat, names@[i as int]@)]);
            keys.push(SortKey { rank: 0, parts });
        }
        i += 1;
    }
    assert(ns.take(ns.len() as int) =~= ns);
    let ghost all = texts(kept@);
    let ghost unsorted = kept@;
    assert(keys_view(keys@) =~= name_keys(all));
    sort_by_keys(&mut kept, keys);
    proof {
        let p = choose|p: Seq<int>| sorted_stably(unsorted, name_keys(all), kept@, p);
        assert forall|i: int| 0 <= i < p.len() implies #[trigger] texts(kept@)[i] == all[p[i]] by {
            assert(kept@[i] == unsorted[p[i]]);
        }
        assert(sorted_stably(all, name_keys(all), texts(kept@), p));
    }
    kept
}

/// What the editor says when a list has been saved, or has not.
pub fn saved_status(name: &str, result: &Result<(), String>) -> (r: String)
    ensures
        r@ == (match *result {
            Ok(_) => "сохранено: "@ + name@,
            Err(e) => "ошибка: "@ + e@,
        }),
{
    match result {
        Ok(_) => cat("сохранено: ", name),
        Err(e) => cat("ошибка: ", e.as_str()),
    }
}

/// The events of the editor when a list has been brought back, or has not: `fetched` is
/// what the published list holds, and `written` whether it could be written.
pub fn revert_events(
    name: &str,
    fetched: &Result<Vec<u8>, String>,
    written: &Result<(), String>,
) -> (r: Vec<ListsEvent>)
    ensures
        events(r@) == (match *fetched {
            Err(e) => seq![EventView::Status("откат не удался: "@ + e@)],
            Ok(bytes) => match *written {
                Err(e) => seq![EventView::Status("ошибка записи: "@ + e@)],
                Ok(_) => seq![
                    EventView::SetText(text_of(bytes@)),
                    EventView::Status("откатан стандартный: "@ + name@),
                ],
            },
        }),
{
    let mut v: Vec<ListsEvent> = Vec::new();
    match fetched {
        Err(e) => {
            v.push(ListsEvent::Status(cat("откат не удался: ", e.as_str())));
            assert(events(v@) =~= seq![EventView::Status("откат не удался: "@ + e@)]);
        },
        Ok(bytes) => match written {
            Err(e) => {
                v.push(ListsEvent::Status(cat("ошибка записи: ", e.as_str())));
                assert(events(v@) =~= seq![EventView::Status("ошибка записи: "@ + e@)]);
            },
            Ok(_) => {
                v.push(ListsEvent::SetText(from_utf8_lossy(bytes)));
                v.push(ListsEvent::Status(cat("откатан стандартный: ", name)));
                assert(events(v@) =~= seq![
                    EventView::SetText(text_of(bytes@)),
                    EventView::Status("откатан стандартный: "@ + name@),
                ]);
            },
        },
    }
    v
}

// ── Lines of the test ───────────────────────────────────────────────────────

/// The line on one target.
pub fn test_line(label: &str, ok: bool) -> (r: String)
    ensures
        r@ == "тест: "@ + label@ + " — "@ + (if ok {
            "ok"@
        } else {
            "fail"@
        }),
{
    let mut s = cat3("тест: ", label, " — ");
    s.append(
        if ok {
            "ok"
        } else {
            "fail"
        },
    );
    s
}

/// The line on the whole test.
pub fn test_end(ok_count: usize, total: usize) -> (r: String)
    ensures
        r@ == "тест завершён: "@ + decimal(ok_count as nat) + "/"@ + decimal(total as nat)
            + " доступно"@,
{
    let mut s = cat3("тест завершён: ", decimal_text(ok_count as u64).as_str(), "/");
    s.append(decimal_text(total as u64).as_str());
    s.append(" доступно");
    s
}

/// Whether the service claims to run while the bypass does not.
pub open spec fn only_claims(state: ServiceState, authoritative: bool) -> bool {
    state is Running && !authoritative
}

/// Whether the service claims to run while the bypass does not.
pub fn check_service(state: ServiceState, authoritative: bool) -> (r: bool)
    ensures
        r == (state is Running && !authoritative),
        r == only_claims(state, authoritative),
{
    match state {
        ServiceState::Running => !authoritative,
        _ => false,
    }
}

// ── Laws ────────────────────────────────────────────────────────────────────

/// The log keeps the latest lines: of all lines, old and new, at most five hundred stay,
/// these are the ones at the end, in their order, and nothing but the log changes.
pub proof fn the_log_keeps_the_latest_lines(s: AppView, ls: Seq<Seq<char>>, i: int)
    ensures
        ({
            let kept = with_lines(s, ls).log_lines;
            let all = s.log_lines + ls;
            &&& kept.len() == (if all.len() <= 500 {
                all.len()
            } else {
                500
            })
            &&& 0 <= i < kept.len() ==> kept[kept.len() - 1 - i] == all[all.len() - 1 - i]
            &&& with_lines(s, ls) == (AppView { log_lines: kept, ..s })
        }),
{
}

/// A new scan keeps the choice: where the service was installed with a strategy that was
/// found, the first one of that name is chosen and the settings are saved; otherwise the
/// position stays, unless it lies behind the end and the first strategy takes its place.
/// The remarks of the scan go behind the log.
pub proof fn a_scan_keeps_the_choice(
    s: AppView,
    core: CoreScanView,
    installed: Option<Seq<char>>,
    k: int,
)
    requires
        core.strategies.len() <= usize::MAX,
    ensures
        ({
            let t = rescanned(s, core, installed);
            let first = |n: Seq<char>|
                0 <= k < core.strategies.len() && core.strategies[k].name == n && forall|j: int|
                    0 <= j < k ==> (#[trigger] core.strategies[j]).name != n;
            let lost = |n: Seq<char>|
                forall|j: int|
                    0 <= j < core.strategies.len() ==> (#[trigger] core.strategies[j]).name != n;
            &&& installed is Some && first(installed->0) ==> t.selected_strategy == k
                && saves_after_rescan(core, installed)
            &&& installed is None || lost(installed->0) ==> !saves_after_rescan(core, installed)
                && t.selected_strategy == (if s.selected_strategy < core.strategies.len() {
                s.selected_strategy
            } else {
                0
            })
            &&& t.core == core
            &&& t.log_lines == s.log_lines + core.messages
            &&& t == (AppView {
                core,
                selected_strategy: t.selected_strategy,
                log_lines: t.log_lines,
                ..s
            })
        }),
{
    match installed {
        Some(n) => {
            the_first_of_a_name_is_found(core.strategies, n, k);
        },
        None => {},
    }
}

/// The start shows what is there: with a service, the strategy that it was installed with
/// is chosen, and named behind the greeting; without one, that of the settings. The
/// automatic choice is chosen exactly where the settings say so. The last winner is that of
/// the settings, and only where they name none that of the service.
pub proof fn the_start_shows_what_is_there(
    core: CoreScanView,
    cfg: ConfigView,
    service: ServiceState,
    n: Seq<char>,
    k: int,
)
    requires
        core.strategies.len() <= usize::MAX,
        0 <= k < core.strategies.len(),
        core.strategies[k].name == n,
        forall|j: int| 0 <= j < k ==> (#[trigger] core.strategies[j]).name != n,
    ensures
        service is Running || service is Stopped ==> {
            let t = started(core, cfg, service, Some(n));
            &&& t.selected_strategy == k
            &&& t.log_lines.last() == "служба уже активна · стратегия: "@ + n
            &&& t.auto_best == (if cfg.auto_best is Some {
                cfg.auto_best
            } else {
                Some(n)
            })
        },
        !(service is Running || service is Stopped) && cfg.strategy == Some(n) && n != "smart"@ ==> {
            let t = started(core, cfg, service, None);
            &&& t.selected_strategy == k
            &&& t.log_lines.last() == "zaprust: интерфейс запущен"@
            &&& t.auto_best == cfg.auto_best
        },
        ({
            let t = started(core, cfg, service, Some(n));
            &&& t.smart_selected <==> cfg.strategy == Some("smart"@)
            &&& t.log_lines.take(core.messages.len() as int) == core.messages
            &&& t.core == core && t.service == service
            &&& t.game_filter == cfg.game_filter && t.ipset == cfg.ipset && t.simple_mode
                == cfg.simple_mode
            &&& !t.test_running && !t.service_busy && !t.update_busy && !t.autoselect_running
                && !t.lists_busy && !t.lists_open
            &&& !t.op_failed && !t.status_desync && !t.autoselect_no_result
                && t.autoselect_progress is None
        }),
{
    the_first_of_a_name_is_found(core.strategies, n, k);
    let t = started(core, cfg, service, Some(n));
    assert(t.log_lines.take(core.messages.len() as int) =~= core.messages);
}

/// Of the states of the service the last one counts, and without any the state stays.
pub proof fn the_last_state_counts(s: AppView, states: Seq<ServiceState>, last: ServiceState)
    ensures
        with_states(s, states.push(last)) == (AppView { service: last, ..s }),
        with_states(s, Seq::empty()) == s,
{
    assert(states.push(last).last() == last);
}

/// The editor shows the last text and the last status: what follows a text and brings no
/// other one leaves it, and the same holds of a status. Events change nothing else, and a
/// text or a status that no event brings stays.
pub proof fn the_last_event_of_its_kind_counts(
    s: AppView,
    a: Seq<EventView>,
    t: Seq<char>,
    b: Seq<EventView>,
)
    ensures
        (forall|i: int| 0 <= i < b.len() ==> (#[trigger] b[i]) is Status) ==> with_events(
            s,
            a.push(EventView::SetText(t)) + b,
        ).lists_text == t && with_events(s, b).lists_text == s.lists_text,
        (forall|i: int| 0 <= i < b.len() ==> (#[trigger] b[i]) is SetText) ==> with_events(
            s,
            a.push(EventView::Status(t)) + b,
        ).lists_status == t && with_events(s, b).lists_status == s.lists_status,
        with_events(s, b) == (AppView {
            lists_text: with_events(s, b).lists_text,
            lists_status: with_events(s, b).lists_status,
            ..s
        }),
{
    let x = a.push(EventView::SetText(t));
    let y = a.push(EventView::Status(t));
    assert(x.drop_last() =~= a && y.drop_last() =~= a);
    assert(x.last() == EventView::SetText(t) && y.last() == EventView::Status(t));
    if forall|i: int| 0 <= i < b.len() ==> (#[trigger] b[i]) is Status {
        lemma_a_text_stays(s, x, b);
        lemma_a_text_stays(s, Seq::empty(), b);
        assert(Seq::<EventView>::empty() + b =~= b);
    }
    if forall|i: int| 0 <= i < b.len() ==> (#[trigger] b[i]) is SetText {
        lemma_a_status_stays(s, y, b);
        lemma_a_status_stays(s, Seq::empty(), b);
        assert(Seq::<EventView>::empty() + b =~= b);
    }
    lemma_events_reach_the_editor_only(s, b);
}

proof fn lemma_a_text_stays(s: AppView, a: Seq<EventView>, b: Seq<EventView>)
    requires
        forall|i: int| 0 <= i < b.len() ==> (#[trigger] b[i]) is Status,
    ensures
        with_events(s, a + b).lists_text == with_events(s, a).lists_text,
    decreases b.len(),
{
    if b.len() == 0 {
        assert(a + b =~= a);
    } else {
        assert((a + b).drop_last() =~= a + b.drop_last());
        assert((a + b).last() == b[b.len() - 1]);
        lemma_a_text_stays(s, a, b.drop_last());
    }
}

proof fn lemma_a_status_stays(s: AppView, a: Seq<EventView>, b: Seq<EventView>)
    requires
        forall|i: int| 0 <= i < b.len() ==> (#[trigger] b[i]) is SetText,
    ensures
        with_events(s, a + b).lists_status == with_events(s, a).lists_status,
    decreases b.len(),
{
    if b.len() == 0 {
        assert(a + b =~= a);
    } else {
        assert((a + b).drop_last() =~= a + b.drop_last());
        assert((a + b).last() == b[b.len() - 1]);
        lemma_a_status_stays(s, a, b.drop_last());
    }
}

proof fn lemma_events_reach_the_editor_only(s: AppView, es: Seq<EventView>)
    ensures
        with_events(s, es) == (AppView {
            lists_text: with_events(s, es).lists_text,
            lists_status: with_events(s, es).lists_status,
            ..s
        }),
    decreases es.len(),
{
    if es.len() > 0 {
        lemma_events_reach_the_editor_only(s, es.drop_last());
    }
}

/// A frame takes in all that has come in: the last state of the service, the winner of an
/// auto-selection where the service names one, and a report only while an auto-selection
/// runs, of which one that says that nothing was found is remembered. What is under way
/// stays under way.
#[verifier::spinoff_prover]
#[verifier::rlimit(60)]
pub proof fn a_frame_takes_in_what_has_come_in(s: AppView, f: FrameView)
    ensures
        ({
            let t = after_frame(s, f);
            &&& f.states.len() > 0 ==> t.service == f.states.last()
            &&& f.states.len() == 0 ==> t.service == s.service
            &&& (f.applied matches Some(Some(n)) ==> t.auto_best == Some(n))
            &&& !(f.applied is Some && f.applied->0 is Some) ==> t.auto_best == s.auto_best
            &&& s.autoselect_running && f.progress is Some ==> t.autoselect_progress == f.progress
                && (t.autoselect_no_result <==> s.autoselect_no_result || f.progress->0.stage
                == "none"@)
            &&& !(s.autoselect_running && f.progress is Some) ==> t.autoselect_progress
                == s.autoselect_progress && t.autoselect_no_result == s.autoselect_no_result
            &&& (f.reload matches Some(p) ==> t.core == p.0 && t.log_lines == with_lines(
                s,
                f.lines,
            ).log_lines + p.0.messages)
            &&& f.reload is None ==> t.core == s.core && t.selected_strategy == s.selected_strategy
                && t.log_lines == with_lines(s, f.lines).log_lines
            &&& t.lists_text == with_events(s, f.events).lists_text
            &&& t.lists_status == with_events(s, f.events).lists_status
            &&& t.autoselect_running == s.autoselect_running && t.service_busy == s.service_busy
            &&& t.update_busy == s.update_busy && t.test_running == s.test_running
            &&& t.lists_busy == s.lists_busy && t.lists_open == s.lists_open
            &&& t.simple_mode == s.simple_mode && t.smart_selected == s.smart_selected
            &&& t.game_filter == s.game_filter && t.ipset == s.ipset
            &&& t.op_failed == s.op_failed && t.status_desync == s.status_desync
            &&& t.lists_files == s.lists_files && t.lists_sel == s.lists_sel
        }),
{
    let u = with_lines(s, f.lines);
    lemma_events_reach_the_editor_only(u, f.events);
    lemma_events_are_alike(u, s, f.events);
}

proof fn lemma_events_are_alike(a: AppView, b: AppView, es: Seq<EventView>)
    requires
        a.lists_text == b.lists_text,
        a.lists_status == b.lists_status,
    ensures
        with_events(a, es).lists_text == with_events(b, es).lists_text,
        with_events(a, es).lists_status == with_events(b, es).lists_status,
    decreases es.len(),
{
    if es.len() > 0 {
        lemma_events_are_alike(a, b, es.drop_last());
    }
}

/// What is due follows from what is shown: the state is asked for again once three seconds
/// have passed, a frame that waits for something comes back five times a second and another
/// once, the editor is shown where it is open outside the simple view, and the settings are
/// saved where the service has named the strategy or the winner.
pub proof fn what_is_due_follows_from_the_frame(s: AppView, f: FrameView)
    ensures
        ({
            let t = after_frame(s, f);
            let d = due_in_frame(s, f);
            let waits = s.autoselect_running || s.lists_busy || s.service_busy;
            &&& d.check <==> f.since_check_ms >= 3000
            &&& d.repaint_ms * (if waits {
                5
            } else {
                1int
            }) == 1000
            &&& d.screen is Simple <==> s.simple_mode
            &&& d.screen is Lists <==> s.lists_open && !s.simple_mode
            &&& (f.applied matches Some(Some(n)) ==> d.save)
            &&& d.save ==> f.reload is Some || f.applied is Some
            &&& (f.reload matches Some(p) ==> !(f.applied is Some && f.applied->0 is Some) ==> (
            d.save <==> saves_after_rescan(p.0, p.1)))
            &&& d.save && f.reload is None ==> t.auto_best is Some && f.applied == Some(t.auto_best)
        }),
{
    a_frame_takes_in_what_has_come_in(s, f);
}

/// The last report is the last line that holds something: only blank lines follow it, and
/// there is none exactly where all lines are blank.
pub proof fn only_blank_lines_follow_the_last_report(ls: Seq<Seq<char>>, k: int)
    ensures
        0 <= k < ls.len() && trimmed(ls[k]).len() > 0 && (forall|j: int|
            k < j < ls.len() ==> trimmed(#[trigger] ls[j]).len() == 0) ==> last_line(ls) == Some(
            ls[k],
        ),
        last_line(ls) is None <==> (forall|j: int|
            0 <= j < ls.len() ==> trimmed(#[trigger] ls[j]).len() == 0),
    decreases ls.len(),
{
    if ls.len() > 0 {
        let t = ls.drop_last();
        let n = ls.len() - 1;
        only_blank_lines_follow_the_last_report(t, k);
        assert(ls.last() == ls[n]);
        assert forall|j: int| 0 <= j < t.len() implies #[trigger] t[j] == ls[j] by {}
        if last_line(ls) is None {
            assert forall|j: int| 0 <= j < ls.len() implies trimmed(#[trigger] ls[j]).len()
                == 0 by {
                if j < n {
                    assert(t[j] == ls[j]);
                }
            }
        }
        if 0 <= k < n && (forall|j: int|
            k < j < ls.len() ==> trimmed(#[trigger] ls[j]).len() == 0) {
            assert forall|j: int| k < j < t.len() implies trimmed(#[trigger] t[j]).len() == 0 by {
                assert(t[j] == ls[j]);
            }
        }
    }
}

/// The auto-selection is told of the last winner exactly where it may be used and is still
/// among the strategies; where it is not, it is told of nothing.
pub proof fn only_a_known_winner_is_passed_on(s: AppView, gf: bool, k: int)
    ensures
        0 <= k < s.core.strategies.len() && s.auto_best == Some(s.core.strategies[k].name) ==> {
            let a = selection_args(s, true, gf);
            &&& a.len() == 3
            &&& a[2] == s.core.strategies[k].name
        },
        selection_args(s, false, gf)[2].len() == 0,
        s.auto_best is None ==> selection_args(s, true, gf)[2].len() == 0,
        s.auto_best is Some && (forall|j: int|
            0 <= j < s.core.strategies.len() ==> Some((#[trigger] s.core.strategies[j]).name)
                != s.auto_best) ==> selection_args(s, true, gf)[2].len() == 0,
        forall|lkg: bool|
            (#[trigger] selection_args(s, lkg, gf))[0] == "--autoselect"@ && selection_args(
                s,
                lkg,
                gf,
            )[1] == (if gf {
                "1"@
            } else {
                "0"@
            }),
{
    reveal_strlit("");
    if s.auto_best is Some {
        the_first_of_a_name_is_found(s.core.strategies, s.auto_best->0, k);
    }
}

/// The editor offers the text files: a name is offered exactly where it ends in `.txt`, in
/// capital letters or not, and each as often as the directory holds it, in its order.
pub proof fn text_files_are_offered(a: Seq<Seq<char>>, b: Seq<Seq<char>>, name: Seq<char>)
    ensures
        listed(a + b) == listed(a) + listed(b),
        ({
            let n = name.len() as int;
            let is = |i: int, small: char, large: char| name[i] == small || name[i] == large;
            if n >= 4 && name[n - 4] == '.' && is(n - 3, 't', 'T') && is(n - 2, 'x', 'X') && is(
                n - 1,
                't',
                'T',
            ) {
                listed(seq![name]) == seq![name]
            } else {
                listed(seq![name]) == Seq::<Seq<char>>::empty()
            }
        }),
    decreases b.len(),
{
    reveal_strlit(".txt");
    reveal_with_fuel(listed, 2);
    assert(seq![name].drop_last() =~= Seq::<Seq<char>>::empty());
    lowering_changes_capitals_only(name, name);
    let n = name.len() as int;
    let l = lowered(name);
    if n >= 4 {
        let e = l.skip(n - 4);
        assert(e[0] == l[n - 4] && e[1] == l[n - 3] && e[2] == l[n - 2] && e[3] == l[n - 1]);
        let t = ".txt"@;
        assert(t[0] == '.' && t[1] == 't' && t[2] == 'x' && t[3] == 't');
        if e[0] == '.' && e[1] == 't' && e[2] == 'x' && e[3] == 't' {
            assert(e =~= t);
        }
    }
    assert(Seq::<Seq<char>>::empty().push(name) =~= seq![name]);
    if b.len() == 0 {
        assert(a + b =~= a);
        assert(listed(a) + listed(b) =~= listed(a));
    } else {
        let c = b.drop_last();
        text_files_are_offered(a, c, name);
        assert((a + b).drop_last() =~= a + c);
        assert((a + b).last() == b.last());
        assert(listed(a + b) =~= listed(a) + listed(b));
    }
}

/// The files are offered in the order of their names, and each name of the directory is
/// offered.
pub proof fn offered_names_ascend(all: Seq<Seq<char>>, files: Seq<Seq<char>>, p: Seq<int>)
    requires
        sorted_stably(all, name_keys(all), files, p),
    ensures
        files.len() == all.len(),
        forall|k: int| 0 <= k < all.len() ==> files.contains(#[trigger] all[k]),
        forall|i: int, j: int|
            0 <= i < j < files.len() ==> !text_lt(#[trigger] files[j], #[trigger] files[i]),
{
    let keys = name_keys(all);
    sorting_orders_and_keeps(all, keys, files, p);
    assert forall|i: int, j: int| 0 <= i < j < files.len() implies !text_lt(
        #[trigger] files[j],
        #[trigger] files[i],
    ) by {
        assert(files[i] == all[p[i]] && files[j] == all[p[j]]);
        let none = Seq::<PartView>::empty();
        let x = (0nat, files[j]);
        let y = (0nat, files[i]);
        ranks_and_numbers_decide((0nat, none), (0nat, none), none, x, y);
        assert(none.push(x) + none =~= seq![x]);
        assert(none.push(y) + none =~= seq![y]);
        assert(keys[p[j]] == (0nat, seq![x]) && keys[p[i]] == (0nat, seq![y]));
    }
}

/// The start installs the chosen strategy: the elevated run reads the request as an
/// installation of exactly that strategy with the switch as it stands. Without a chosen
/// strategy nothing is asked for, and the log says so.
pub proof fn the_chosen_strategy_is_started(s: AppView)
    ensures
        s.selected_strategy < s.core.strategies.len() && !s.service_busy ==> {
            &&& start_asked(s).0 matches Some(op)
            &&& op.args[0] == "--svc"@
            &&& svc_of(op.args.skip(1)) == SvcView::Install(
                s.core.strategies[s.selected_strategy as int].name,
                s.game_filter,
            )
            &&& start_asked(s).1.service_busy
        },
        s.selected_strategy >= s.core.strategies.len() ==> start_asked(s).0 is None && start_asked(
            s,
        ).1 == (AppView {
            log_lines: s.log_lines.push("ошибка: стратегия не выбрана"@),
            ..s
        }),
        s.service_busy && s.selected_strategy < s.core.strategies.len() ==> start_asked(s) == (
            None::<OperationView>,
            s,
        ),
{
    reveal_strlit("0");
    reveal_strlit("1");
    assert("0"@[0] == '0' && "1"@[0] == '1');
    if s.selected_strategy < s.core.strategies.len() && !s.service_busy {
        let n = s.core.strategies[s.selected_strategy as int].name;
        let w = switch_word(s.game_filter);
        let args = installing(n, s.game_filter).args;
        assert(args.skip(1) =~= seq!["install"@, n, w] + Seq::<Seq<char>>::empty());
        changes_of_the_service_are_read(n, w, Seq::empty(), w);
    }
}

/// The two ways to end the bypass ask for what they say, and no operation begins while
/// another one runs: one that begins marks the state as busy, takes an old failure back,
/// adds its own line to the log and changes nothing else.
pub proof fn one_operation_at_a_time(s: AppView, op: OperationView, other: OperationView)
    ensures
        svc_of(removing().args.skip(1)) == SvcView::Remove,
        svc_of(uninstalling().args.skip(1)) == SvcView::Uninstall,
        removing().args[0] == "--svc"@ && uninstalling().args[0] == "--svc"@,
        ({
            let (begun, t) = operation_asked(s, op);
            &&& begun is Some <==> !s.service_busy
            &&& begun is Some ==> begun == Some(op) && t == (AppView {
                service_busy: true,
                op_failed: false,
                log_lines: t.log_lines,
                ..s
            }) && t.log_lines.drop_last() == s.log_lines && begins(t.log_lines.last(), op.what)
            &&& begun is None ==> t == s
            &&& operation_asked(t, other) == (None::<OperationView>, t)
        }),
{
    let none = Seq::<Seq<char>>::empty();
    assert(removing().args.skip(1) =~= seq!["remove"@] + none);
    assert(uninstalling().args.skip(1) =~= seq!["uninstall"@] + none);
    changes_of_the_service_are_read(""@, ""@, none, ""@);
    let line = op.what + ": запрашиваю права администратора (UAC)…"@;
    assert(line.take(op.what.len() as int) =~= op.what);
    let t = operation_asked(s, op).1;
    if !s.service_busy {
        assert(t.log_lines.drop_last() =~= s.log_lines);
    }
}

/// An auto-selection begins exactly where the core is ready and none runs. It begins with
/// neither a report nor a failure, and while it runs no other one begins and the view stays.
pub proof fn one_selection_at_a_time(s: AppView, lkg: bool, gf: bool, ready: bool, again: bool)
    ensures
        ({
            let (args, t) = selection_asked(s, lkg, gf, ready);
            &&& args is Some <==> ready && !s.autoselect_running
            &&& args is None ==> t == s
            &&& args is Some ==> t == (AppView {
                autoselect_running: true,
                autoselect_no_result: false,
                autoselect_progress: None,
                log_lines: t.log_lines,
                ..s
            }) && t.log_lines.len() == s.log_lines.len() + 1
            &&& args is Some ==> selection_asked(t, again, gf, ready) == (
                None::<Seq<Seq<char>>>,
                t,
            ) && mode_switched(t) == t
        }),
{
}

/// A full run forgets the last winner, in the settings and in the state, and tells the
/// auto-selection of none; the chosen strategy and the switches are saved as they were.
pub proof fn a_full_run_forgets_the_winner(s: AppView, gf: bool, ready: bool)
    ensures
        ({
            let (cfg, args, t) = full_run_asked(s, gf, ready);
            &&& cfg.auto_best is None && t.auto_best is None
            &&& cfg == (ConfigView { auto_best: None, ..settings(s) })
            &&& args is Some <==> ready && !s.autoselect_running
            &&& args matches Some(a) ==> a.len() == 3 && a[2].len() == 0
            &&& t.autoselect_running <==> s.autoselect_running || ready
            &&& t.core == s.core && t.selected_strategy == s.selected_strategy
        }),
{
    reveal_strlit("");
}

/// A test, a download or an update begins only where none runs, and says so in the state,
/// so that a second one does not begin.
pub proof fn background_work_begins_once(s: AppView, n: nat, m: nat)
    ensures
        test_asked(s, n).0 <==> !s.test_running,
        test_asked(s, n).1.test_running,
        !test_asked(test_asked(s, n).1, m).0,
        s.test_running ==> test_asked(s, n).1 == s,
        !s.test_running ==> test_asked(s, n).1.log_lines.drop_last() == s.log_lines,
        update_asked(s).0 <==> !s.update_busy,
        update_asked(s).1.update_busy,
        !update_asked(update_asked(s).1).0,
        update_asked(s).1 == (AppView { update_busy: true, ..s }),
{
    if !s.test_running {
        assert(test_asked(s, n).1.log_lines.drop_last() =~= s.log_lines);
    }
}

/// What is chosen is saved: after a strategy has been chosen the settings name it, after
/// the automatic choice they name that one, the view is saved as it is shown, and each
/// choice leaves all others as they are. Two changes of the view bring the first one back.
pub proof fn choices_are_saved(s: AppView, i: usize)
    ensures
        ({
            let c = settings(with_choice(s, i));
            &&& i < s.core.strategies.len() ==> c.strategy == Some(
                s.core.strategies[i as int].name,
            )
            &&& c == (ConfigView { strategy: c.strategy, ..settings(s) })
        }),
        settings(with_smart(s)) == (ConfigView { strategy: Some("smart"@), ..settings(s) }),
        with_smart(with_choice(s, i)).selected_strategy == i,
        !s.autoselect_running ==> settings(mode_switched(s)).simple_mode != s.simple_mode,
        mode_switched(mode_switched(s)) == s,
        settings(s).auto_best == s.auto_best && settings(s).game_filter == s.game_filter
            && settings(s).ipset == s.ipset && settings(s).simple_mode == s.simple_mode,
{
}

/// Work on a list is for the list that is chosen, and begins only where none is being
/// written. Choosing another list empties the text, so that nothing is saved under a wrong
/// name, and what is read fills it; a failure leaves it empty and is told.
pub proof fn the_chosen_list_is_worked_on(
    s: AppView,
    i: usize,
    status: Seq<char>,
    text: Seq<char>,
    error: Seq<char>,
)
    ensures
        ({
            let (name, t) = list_work_asked(s, status);
            &&& name is Some <==> !s.lists_busy && s.core.core_dir is Some && s.lists_sel
                < s.lists_files.len()
            &&& name is Some ==> name == Some(s.lists_files[s.lists_sel as int]) && t == (AppView {
                lists_busy: true,
                lists_status: status,
                ..s
            })
            &&& name is None ==> t == s
            &&& name is Some ==> list_work_asked(t, status).0 is None
        }),
        ({
            let (read, t) = list_chosen(s, i);
            &&& t.lists_sel == i
            &&& read <==> i != s.lists_sel
            &&& read ==> t.lists_text.len() == 0 && t.lists_status.len() == 0
            &&& !read ==> t == s
            &&& t == (AppView {
                lists_sel: i,
                lists_text: t.lists_text,
                lists_status: t.lists_status,
                ..s
            })
        }),
        list_read(s, Ok(text)) == (AppView { lists_text: text, ..s }),
        ({
            let t = list_read(s, Err(error));
            &&& t.lists_text.len() == 0
            &&& t.lists_status.len() > error.len() && ends(t.lists_status, error)
            &&& t == (AppView { lists_text: t.lists_text, lists_status: t.lists_status, ..s })
        }),
{
    reveal_strlit("");
    reveal_strlit("ошибка чтения: ");
    let line = "ошибка чтения: "@ + error;
    assert(line.skip(line.len() - error.len()) =~= error);
}

/// A core is ready exactly where it is complete: it needs a directory, strategies, a
/// version and an engine, and is not ready where any of them is missing.
pub proof fn a_ready_core_is_complete(core: CoreScanView, version: bool, engine: bool)
    ensures
        is_ready(core, true, true) <==> core.core_dir is Some && core.strategies.len() != 0,
        !is_ready(core, false, engine) && !is_ready(core, version, false),
        core.core_dir is None || core.strategies.len() == 0 ==> !is_ready(core, version, engine),
{
}

} // verus!
