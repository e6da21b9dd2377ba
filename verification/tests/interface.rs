use zaprust::autoselect::AutoProgress;
use zaprust::cli::{
    chosen_strategy, dumped_strategy, parse_mode, role, run_service_command, test_elevate, write_list_command, Mode,
    SvcAction,
};
use zaprust::config::{Config, SMART};
use zaprust::diagnostics::{diagnostics_text, is_troublesome, log_env_header, CoreFacts, Environment};
use zaprust::icon::{load_icon, picture_or_blank};
use zaprust::logging::Level;
use zaprust::operation::{
    expectation, failure_message, finish_command, install_operation, install_winner, op_result_line, operation_lines,
    poll_again, prefix_lines, reinvoke_line, remove_operation, selection_end, silently_failed, switch_text,
    uninstall_operation, write_op_result, Look, POLLS,
};
use zaprust::platform::{pid_text, state_text, ServiceState};
use zaprust::state::{
    check_service, last_report, list_files, revert_events, saved_status, test_end, test_line, Frame, ListsEvent, Screen,
    ZaprustApp, LOG_CAP,
};
use zaprust::strategies::{CoreScan, Strategy};
use zaprust::updater::LatestRelease;
use zaprust::upgrade::{
    apply_answer, apply_args_linux, apply_args_windows, apply_begin, apply_error, apply_lines, apply_next,
    apply_update_linux, apply_update_windows, direct_update, download_core_linux, download_core_windows, progress,
    progress_line, run_update_linux, run_update_windows, updates_directly, write_answer, ApplyFacts, ApplyStage,
};
use zaprust::view::{
    action_buttons, mode_switch, render_lists, render_simple, strategy_row, title_bar, Act, ActionView, Icon, MenuItem,
    Tone,
};

fn strings(parts: &[&str]) -> Vec<String> {
    parts.iter().map(|s| s.to_string()).collect()
}

fn strategy(name: &str, group: &str) -> Strategy {
    Strategy {
        name: name.to_owned(),
        group: group.to_owned(),
        source_path: String::new(),
        args: vec![],
        raw_args: String::new(),
        wf_tcp: vec![],
        wf_udp: vec![],
    }
}

fn kernel() -> CoreScan {
    CoreScan {
        core_dir: Some("/c".to_owned()),
        strategies: vec![strategy("general", "general"), strategy("a1", "Alt"), strategy("a2", "Alt")],
        messages: strings(&["m"]),
    }
}

fn app() -> ZaprustApp {
    ZaprustApp::new(kernel(), &Config::default(), ServiceState::NotInstalled, None)
}

fn frame() -> Frame {
    Frame {
        lines: vec![],
        events: vec![],
        reload: None,
        states: vec![],
        since_check_ms: 0,
        applied: None,
        progress: None,
    }
}

fn report(stage: &str, idx: usize, total: usize, name: &str) -> AutoProgress {
    AutoProgress {
        idx,
        total,
        strategy: name.to_owned(),
        stage: stage.to_owned(),
        result: String::new(),
        ping: 0,
    }
}

// ── command line ──

#[test]
fn the_first_argument_chooses_the_mode() {
    let m = |a: &[&str]| parse_mode(&strings(a));
    assert!(matches!(m(&["z"]), Mode::Gui));
    assert!(matches!(m(&["z", "x"]), Mode::Gui));
    assert!(matches!(m(&[]), Mode::Gui));
    assert!(matches!(m(&["z", "--dump-args"]), Mode::DumpArgs(None)));
    assert!(matches!(m(&["z", "--test-run", "n"]), Mode::TestRun(Some(n)) if n == "n"));
    assert!(matches!(m(&["z", "--test-net"]), Mode::TestNet));
    assert!(matches!(m(&["z", "--diag"]), Mode::Diag));
    assert!(matches!(m(&["z", "--install-desktop"]), Mode::InstallDesktop));
    assert!(matches!(m(&["z", "--update-dry"]), Mode::UpdateDry));
    assert!(matches!(m(&["z", "--fetch-core", "/d"]), Mode::FetchCore(Some(d)) if d == "/d"));
    assert!(matches!(m(&["z", "--engine-up"]), Mode::EngineUp(None)));
    assert!(matches!(m(&["z", "--engine-down"]), Mode::EngineDown));
    assert!(matches!(m(&["z", "--svc-run", "n", "1"]), Mode::SvcRun(Some(n), true) if n == "n"));
    assert!(matches!(m(&["z", "--svc-run", "n", "0"]), Mode::SvcRun(Some(_), false)));
    assert!(matches!(m(&["z", "--svc-run"]), Mode::SvcRun(None, false)));
    assert!(matches!(m(&["z", "--test-elevate"]), Mode::TestElevate(v) if v.is_empty()));
    assert!(matches!(m(&["z", "--svc", "stop"]), Mode::Svc(v) if v == ["stop"]));
    assert!(matches!(m(&["z", "--apply-update", "a", "b"]), Mode::ApplyUpdate(v) if v == ["a", "b"]));
    assert!(matches!(m(&["z", "--autoselect", "0"]), Mode::Autoselect(v) if v == ["0"]));
    assert!(matches!(m(&["z", "--write-list", "a", "b"]), Mode::WriteList(v) if v == ["a", "b"]));
}

#[test]
fn the_role_follows_the_mode() {
    let r = |a: &[&str]| role(&strings(a));
    assert_eq!(r(&["z"]), "gui");
    assert_eq!(r(&["z", "file"]), "gui");
    assert_eq!(r(&["z", "--svc"]), "svc");
    assert_eq!(r(&["z", "--svc-run"]), "svc");
    assert_eq!(r(&["z", "--write-list"]), "svc");
    assert_eq!(r(&["z", "--autoselect"]), "autoselect");
    assert_eq!(r(&["z", "--apply-update"]), "update");
    assert_eq!(r(&["z", "--anything"]), "diag");
}

#[test]
fn changes_of_the_service_are_read() {
    let a = |v: &[&str]| run_service_command(&strings(v));
    assert!(matches!(a(&["install", "n", "1"]), SvcAction::Install(n, true) if n == "n"));
    assert!(matches!(a(&["install", "n", "0"]), SvcAction::Install(_, false)));
    assert!(matches!(a(&["install"]), SvcAction::Install(n, false) if n.is_empty()));
    assert!(matches!(a(&["remove"]), SvcAction::Remove));
    assert!(matches!(a(&["start"]), SvcAction::Start));
    assert!(matches!(a(&["stop"]), SvcAction::Stop));
    assert!(matches!(a(&["uninstall"]), SvcAction::Uninstall));
    assert!(matches!(a(&["odd"]), SvcAction::Unknown(e) if e == "неизвестная операция службы: odd"));
    assert!(matches!(a(&[]), SvcAction::Unknown(e) if e == "неизвестная операция службы: "));
}

#[test]
fn other_arguments_are_read() {
    assert_eq!(write_list_command(&strings(&["d", "s"])), Ok(("d".to_owned(), "s".to_owned())));
    assert_eq!(write_list_command(&strings(&["d"])), Err("--write-list: нужны dest и src".to_owned()));
    let l = kernel().strategies;
    assert_eq!(chosen_strategy(&l, Some("a1")), Ok(1));
    assert_eq!(chosen_strategy(&l, None), Ok(0));
    assert_eq!(chosen_strategy(&l, Some("?")), Err("стратегия не найдена: ?".to_owned()));
    assert_eq!(chosen_strategy(&[], None), Err("стратегий нет".to_owned()));
    assert_eq!(dumped_strategy(&l, None), Ok(0));
    assert_eq!(dumped_strategy(&l[1..], None), Err("стратегия не найдена: general".to_owned()));
    assert_eq!(test_elevate(&[]), vec!["--svc", "start"]);
    assert_eq!(test_elevate(&strings(&["x"])), vec!["x"]);
}

// ── operations ──

#[test]
fn operations_have_arguments_and_a_name() {
    let op = install_operation("general", true);
    assert_eq!(op.args, vec!["--svc", "install", "general", "1"]);
    assert_eq!(op.what, "запуск обхода · general");
    assert_eq!(reinvoke_line(&op), "запуск обхода · general: реинвок --svc install general 1");
    assert_eq!(remove_operation().args, vec!["--svc", "remove"]);
    assert_eq!(uninstall_operation().what, "удаление службы и драйвера");
    assert_eq!(switch_text(false), "0");
}

#[test]
fn the_effect_of_an_operation_is_waited_for() {
    let start = expectation(&strings(&["--svc", "install"]));
    assert!(start.running && !start.removed);
    let gone = expectation(&strings(&["--svc", "uninstall"]));
    assert!(!gone.running && gone.removed);
    let none = expectation(&strings(&["--svc"]));
    assert!(!none.running && !none.removed);
    let up = Look { state: ServiceState::Running, authoritative: true, alive: true };
    let down = Look { state: ServiceState::NotInstalled, authoritative: false, alive: false };
    assert!(!poll_again(start, 1, up));
    assert!(poll_again(start, 1, down));
    assert!(!poll_again(start, POLLS, down));
    assert!(!poll_again(gone, 1, down));
    assert!(poll_again(gone, 1, Look { alive: true, ..down }));
    assert!(poll_again(none, 15, up));
}

#[test]
fn a_silent_failure_is_told() {
    let start = expectation(&strings(&["--svc", "start"]));
    assert!(silently_failed(&Ok(0), start, false));
    assert!(!silently_failed(&Ok(0), start, true));
    assert!(!silently_failed(&Ok(1), start, false));
    assert!(!silently_failed(&Err("e".to_owned()), start, false));
    assert_eq!(
        failure_message(ServiceState::Stopped, Some(3)),
        "обход НЕ поднялся: служба=Stopped, движок_pid=Some(3). Подробности в логах."
    );
    assert_eq!(pid_text(None), "None");
    assert_eq!(state_text(ServiceState::NotInstalled), "NotInstalled");
}

#[test]
fn the_end_of_an_operation_is_told() {
    let log = strings(&["l1", "l2"]);
    assert_eq!(operation_lines("w", &Ok(0), &log), vec!["w: готово"]);
    assert_eq!(operation_lines("w", &Ok(5), &log), vec!["w: ошибка (код 5)", "l1", "l2"]);
    assert_eq!(operation_lines("w", &Err("e".to_owned()), &log), vec!["w: e"]);
    assert_eq!(prefix_lines("p: ", &log), vec!["p: l1", "p: l2"]);
}

#[test]
fn the_end_of_a_selection_is_told() {
    let log = strings(&["l"]);
    assert_eq!(selection_end(&Ok(0), &log), (strings(&["автоподбор: победитель установлен"]), true));
    assert_eq!(selection_end(&Ok(2), &log), (strings(&["автоподбор: отменён"]), false));
    assert_eq!(selection_end(&Ok(3), &log), (strings(&["автоподбор: рабочая стратегия не найдена"]), false));
    assert_eq!(
        selection_end(&Ok(1), &log),
        (strings(&["автоподбор: ошибка (код 1)", "автоподбор: l"]), false)
    );
    assert_eq!(selection_end(&Err("e".to_owned()), &log), (strings(&["автоподбор: e"]), false));
}

#[test]
fn an_elevated_run_leaves_a_result() {
    let r = write_op_result("install", false, Some("e".to_owned()), ServiceState::Unknown, Some(4));
    assert_eq!(r.op, "install");
    assert_eq!(r.service_state, "Unknown");
    assert_eq!(r.error.as_deref(), Some("e"));
    assert_eq!(op_result_line(&r), "записан итог: op=install ok=false service=Unknown winws_pid=Some(4)");
    let ok = finish_command("stop", Ok(()));
    assert_eq!((ok.code, ok.level, ok.line.as_str(), ok.error), (0, Level::Info, "stop: ok", None));
    let bad = finish_command("stop", Err("e".to_owned()));
    assert_eq!((bad.code, bad.level, bad.line.as_str()), (1, Level::Error, "stop: e"));
    assert_eq!(bad.error.as_deref(), Some("e"));
    assert_eq!(install_winner("n", Ok(())).line, "победитель установлен: n");
    let lost = install_winner("n", Err("e".to_owned()));
    assert_eq!(lost.line, "установка победителя n: e");
    assert_eq!(lost.error.as_deref(), Some("установка победителя: e"));
    assert_eq!(lost.code, 1);
}

// ── updates ──

#[test]
fn a_download_reports_every_fifth() {
    assert_eq!(progress(0, 19, Some(100)), None);
    assert_eq!(progress(0, 20, Some(100)), Some(20));
    assert_eq!(progress(20, 39, Some(100)), None);
    assert_eq!(progress(20, 95, Some(100)), Some(95));
    assert_eq!(progress(0, 50, None), None);
    assert_eq!(progress(0, 50, Some(0)), None);
    assert_eq!(progress_line("ядро", 40), "ядро: скачано 40%");
}

fn release(tag: &str) -> LatestRelease {
    LatestRelease { tag: tag.to_owned(), zip_url: "u".to_owned() }
}

#[test]
fn an_update_touches_only_what_has_changed() {
    let both = run_update_linux(&release("2"), &Some("1".to_owned()), &release("v2"), &None);
    assert!(both.assets && both.engine);
    assert_eq!(
        both.notes,
        vec!["обновление: Flowseal 2 (текущая: 1)", "обновление: nfqws v2 (текущая: неизвестна)"]
    );
    assert_eq!(both.done, "обновлено: Flowseal 2 + nfqws v2");
    assert_eq!(
        direct_update(&both),
        vec![ApplyStage::Assets, ApplyStage::AssetsVersion, ApplyStage::Engine, ApplyStage::EngineVersion]
    );
    let none = run_update_linux(&release("2"), &Some("2".to_owned()), &release("v2"), &Some("v2".to_owned()));
    assert!(!none.assets && !none.engine && none.notes.is_empty());
    assert_eq!(none.done, "уже актуально (Flowseal 2, nfqws v2)");
    assert!(direct_update(&none).is_empty());
    let engine = run_update_linux(&release("2"), &Some("2".to_owned()), &release("v2"), &None);
    assert_eq!(engine.done, "обновлено: nfqws v2");
    assert_eq!(
        apply_args_linux(&engine, "/f.zip", "2", "/n.zip", "v2", Some("general"), true),
        vec!["--apply-update", "-", "2", "/n.zip", "v2", "general", "1"]
    );
    assert_eq!(apply_args_linux(&both, "/f.zip", "2", "/n.zip", "v2", None, true).len(), 5);
}

#[test]
fn an_update_on_windows_has_one_source() {
    assert_eq!(
        run_update_windows(&release("2"), &Some("1".to_owned())),
        (true, "обновление: доступна 2 (текущая: 1)".to_owned())
    );
    assert_eq!(run_update_windows(&release("2"), &Some("2".to_owned())), (false, "уже актуально (2)".to_owned()));
    assert_eq!(apply_args_windows("z", "t", Some("n"), false), vec!["--apply-update", "z", "t", "n", "0"]);
}

#[test]
fn the_answer_of_an_elevated_update() {
    let log = strings(&["l"]);
    assert_eq!(apply_answer(&Ok(0), "done"), Ok("done".to_owned()));
    assert_eq!(apply_answer(&Ok(1), "done"), Err("установка не удалась (код 1)".to_owned()));
    assert_eq!(apply_answer(&Err("e".to_owned()), "done"), Err("e".to_owned()));
    assert!(apply_lines(&Ok(0), "p: ", &log).is_empty());
    assert_eq!(apply_lines(&Ok(1), "p: ", &log), vec!["p: l"]);
    assert_eq!(write_answer(&Ok(0)), Ok(()));
    assert_eq!(write_answer(&Ok(2)), Err("запись не удалась (код 2)".to_owned()));
    assert_eq!(write_answer(&Err("e".to_owned())), Err("e".to_owned()));
}

#[test]
fn the_arguments_of_a_replacement_are_read_back() {
    let p = apply_update_linux(&strings(&["-", "2", "/n.zip", "v2", "general", "1"])).unwrap();
    assert_eq!(p.fs_zip, None);
    assert_eq!(p.bv_zip.as_deref(), Some("/n.zip"));
    assert_eq!((p.fs_tag.as_str(), p.bv_tag.as_str()), ("2", "v2"));
    assert_eq!(p.strategy.as_deref(), Some("general"));
    assert!(p.game_filter);
    assert_eq!(
        apply_update_linux(&strings(&["-", "2", ""])).unwrap_err(),
        "нечего заменять (оба источника пропущены)"
    );
    let w = apply_update_windows(&strings(&["z", "t", "n", "0"])).unwrap();
    assert_eq!((w.fs_zip.as_deref(), w.fs_tag.as_str(), w.strategy.as_deref()), (Some("z"), "t", Some("n")));
    assert!(!w.game_filter);
    assert_eq!(apply_update_windows(&[]).unwrap_err(), "нет пути к zip");
}

#[test]
fn a_replacement_goes_through_its_stages() {
    let f = ApplyFacts { assets: true, engine: true, was_running: true, has_strategy: true };
    let mut s = apply_begin(f);
    let mut seen = vec![s];
    while !matches!(s, ApplyStage::Exit(_)) {
        s = apply_next(f, s, true);
        seen.push(s);
    }
    assert_eq!(
        seen,
        vec![
            ApplyStage::RemoveService,
            ApplyStage::ResetEngine,
            ApplyStage::Assets,
            ApplyStage::AssetsVersion,
            ApplyStage::Engine,
            ApplyStage::EngineVersion,
            ApplyStage::FixOwner,
            ApplyStage::Reinstall,
            ApplyStage::Exit(0),
        ]
    );
    assert_eq!(apply_next(f, ApplyStage::Assets, false), ApplyStage::Exit(1));
    assert_eq!(apply_next(f, ApplyStage::AssetsVersion, false), ApplyStage::Engine);
    assert_eq!(apply_next(f, ApplyStage::Reinstall, false), ApplyStage::Exit(1));
    let small = ApplyFacts { assets: false, engine: false, was_running: false, has_strategy: true };
    assert_eq!(apply_begin(small), ApplyStage::ResetEngine);
    assert_eq!(apply_next(small, ApplyStage::ResetEngine, true), ApplyStage::FixOwner);
    assert_eq!(apply_next(small, ApplyStage::FixOwner, true), ApplyStage::Exit(0));
    assert_eq!(apply_error(ApplyStage::Assets, "e", false).as_deref(), Some("замена ассетов Flowseal: e"));
    assert_eq!(apply_error(ApplyStage::Assets, "e", true).as_deref(), Some("замена ядра: e"));
    assert_eq!(apply_error(ApplyStage::EngineVersion, "e", false).as_deref(), Some("запись версии nfqws: e"));
    assert_eq!(apply_error(ApplyStage::Reinstall, "e", false).as_deref(), Some("перезапуск службы: e"));
    assert_eq!(apply_error(ApplyStage::RemoveService, "e", false), None);
}

#[test]
fn a_first_installation_is_told() {
    let (a, b, done) = download_core_linux("2", "v2");
    assert_eq!(a, "ядро: качаю ассеты Flowseal 2…");
    assert_eq!(b, "ядро: качаю nfqws v2…");
    assert_eq!(done, "установлено: Flowseal 2 + nfqws v2");
    assert_eq!(download_core_windows(Ok(()), "2"), Ok("установлено 2".to_owned()));
    assert_eq!(
        download_core_windows(Err("e".to_owned()), "2"),
        Err("ядро: прямая установка не вышла (e), пробую с UAC…".to_owned())
    );
}

// ── state ──

#[test]
fn a_start_restores_the_strategy_of_the_service() {
    let cfg = Config { strategy: Some("a1".to_owned()), ..Config::default() };
    let a = ZaprustApp::new(kernel(), &cfg, ServiceState::Running, Some("a2".to_owned()));
    assert_eq!(a.selected_strategy, 2);
    assert_eq!(a.auto_best.as_deref(), Some("a2"));
    assert_eq!(
        a.log_lines,
        vec!["m", "zaprust: интерфейс запущен", "служба уже активна · стратегия: a2"]
    );
    let b = ZaprustApp::new(kernel(), &cfg, ServiceState::NotInstalled, Some("a2".to_owned()));
    assert_eq!(b.selected_strategy, 1);
    assert_eq!(b.auto_best, None);
    assert_eq!(b.log_lines.len(), 2);
}

#[test]
fn settings_survive_a_start() {
    let mut a = app();
    a.choose_strategy(2);
    a.game_filter = true;
    a.auto_best = Some("a1".to_owned());
    let saved = a.save_config();
    assert_eq!(saved.strategy.as_deref(), Some("a2"));
    let b = ZaprustApp::new(kernel(), &saved, ServiceState::NotInstalled, None);
    assert_eq!(b.selected_strategy, 2);
    assert!(b.game_filter && b.ipset && b.simple_mode && !b.smart_selected);
    assert_eq!(b.auto_best.as_deref(), Some("a1"));
    assert!(a.choose_smart());
    assert!(!a.choose_smart());
    let smart = a.save_config();
    assert_eq!(smart.strategy.as_deref(), Some(SMART));
    assert!(ZaprustApp::new(kernel(), &smart, ServiceState::NotInstalled, None).smart_selected);
    let first = Config::load(None);
    assert!(first.strategy.is_none() && !first.game_filter && first.ipset && first.simple_mode);
    assert_eq!(Config::load(Some(saved.clone())).strategy.as_deref(), Some("a2"));
}

#[test]
fn the_core_is_ready_with_all_its_parts() {
    let a = app();
    assert!(a.core_ready(true, true));
    assert!(!a.core_ready(false, true));
    assert!(!a.core_ready(true, false));
    let none = ZaprustApp::new(CoreScan::default(), &Config::default(), ServiceState::Unknown, None);
    assert!(!none.core_ready(true, true));
    assert!(none.current_strategy().is_none());
    assert_eq!(a.current_strategy().unwrap().name, "general");
}

#[test]
fn the_log_keeps_the_latest_lines() {
    let mut a = app();
    let many: Vec<String> = (0..LOG_CAP + 10).map(|i| i.to_string()).collect();
    a.drain_log(many);
    assert_eq!(a.log_lines.len(), LOG_CAP);
    assert_eq!(a.log_lines[0], "10");
    assert_eq!(a.log_lines[LOG_CAP - 1], (LOG_CAP + 9).to_string());
}

#[test]
fn a_frame_takes_everything_in() {
    let mut a = app();
    a.selected_strategy = 9;
    let mut f = frame();
    f.lines = strings(&["l"]);
    f.events = vec![ListsEvent::SetText("t".to_owned()), ListsEvent::Status("s".to_owned())];
    f.reload = Some((kernel(), Some("a1".to_owned())));
    f.states = vec![ServiceState::Stopped, ServiceState::Running];
    f.since_check_ms = 3000;
    let due = a.update(f);
    assert!(due.save && due.check);
    assert_eq!(due.repaint_ms, 1000);
    assert_eq!(due.screen, Screen::Simple);
    assert_eq!(a.selected_strategy, 1);
    assert_eq!(a.service, ServiceState::Running);
    assert_eq!((a.lists_text.as_str(), a.lists_status.as_str()), ("t", "s"));
    assert_eq!(a.log_lines.last().map(|s| s.as_str()), Some("m"));
}

#[test]
fn a_frame_without_news_changes_nothing_but_the_clock() {
    let mut a = app();
    a.simple_mode = false;
    a.lists_open = true;
    a.lists_busy = true;
    let due = a.update(frame());
    assert!(!due.save && !due.check);
    assert_eq!(due.repaint_ms, 200);
    assert_eq!(due.screen, Screen::Lists);
    a.lists_open = false;
    assert_eq!(a.update(frame()).screen, Screen::Advanced);
    let mut f = frame();
    f.applied = Some(Some("a2".to_owned()));
    f.progress = Some(report("none", 0, 0, ""));
    let due = a.update(f);
    assert!(due.save);
    assert_eq!(a.auto_best.as_deref(), Some("a2"));
    assert!(a.autoselect_progress.is_none(), "no selection runs");
    a.autoselect_running = true;
    let mut f = frame();
    f.progress = Some(report("none", 0, 0, ""));
    a.update(f);
    assert!(a.autoselect_no_result && a.autoselect_progress.is_some());
}

#[test]
fn only_one_operation_runs_at_a_time() {
    let mut a = app();
    a.op_failed = true;
    let op = a.start_bypass().unwrap();
    assert_eq!(op.args, vec!["--svc", "install", "general", "0"]);
    assert!(a.service_busy && !a.op_failed);
    assert_eq!(
        a.log_lines.last().map(|s| s.as_str()),
        Some("запуск обхода · general: запрашиваю права администратора (UAC)…")
    );
    assert!(a.stop_bypass().is_none());
    assert!(a.uninstall_all().is_none());
    a.service_busy = false;
    assert_eq!(a.stop_bypass().unwrap().what, "остановка обхода");
    let mut none = ZaprustApp::new(CoreScan::default(), &Config::default(), ServiceState::Unknown, None);
    assert!(none.start_bypass().is_none());
    assert_eq!(none.log_lines.last().map(|s| s.as_str()), Some("ошибка: стратегия не выбрана"));
}

#[test]
fn a_selection_begins_with_the_known_good() {
    let mut a = app();
    a.auto_best = Some("a2".to_owned());
    assert!(a.start_autoselect(true, true, false).is_none());
    assert!(!a.autoselect_running);
    assert_eq!(a.start_autoselect(true, true, true).unwrap(), vec!["--autoselect", "1", "a2"]);
    assert!(a.autoselect_running);
    assert!(a.start_autoselect(true, true, true).is_none());
    assert!(!a.switch_mode());
    a.autoselect_running = false;
    a.auto_best = Some("gone".to_owned());
    assert_eq!(a.start_autoselect(true, false, true).unwrap(), vec!["--autoselect", "0", ""]);
    a.autoselect_running = false;
    let (cfg, args) = a.reset_and_rescan(false, true);
    assert_eq!(cfg.auto_best, None);
    assert_eq!(args.unwrap(), vec!["--autoselect", "0", ""]);
    a.cancel_autoselect();
    assert_eq!(a.log_lines.last().map(|s| s.as_str()), Some("автоподбор: отмена…"));
    a.autoselect_running = false;
    assert!(a.switch_mode());
    assert!(!a.simple_mode);
}

#[test]
fn the_last_report_is_the_last_line_with_something() {
    assert_eq!(last_report("a\nb\n \n").as_deref(), Some("b"));
    assert_eq!(last_report("\n"), None);
}

#[test]
fn updates_and_tests_run_once() {
    let mut a = app();
    let q = a.check_and_update().unwrap();
    assert_eq!(q.core_dir.as_deref(), Some("/c"));
    assert_eq!(q.strategy.as_deref(), Some("general"));
    assert!(a.check_and_update().is_none());
    assert!(!a.download_core());
    a.update_busy = false;
    assert!(a.download_core());
    assert!(a.start_test(3));
    assert_eq!(a.log_lines.last().map(|s| s.as_str()), Some("тест: проверяю 3 целей…"));
    assert!(!a.start_test(3));
    assert_eq!(test_line("x", true), "тест: x — ok");
    assert_eq!(test_line("x", false), "тест: x — fail");
    assert_eq!(test_end(1, 3), "тест завершён: 1/3 доступно");
    assert!(check_service(ServiceState::Running, false));
    assert!(!check_service(ServiceState::Running, true));
    assert!(!check_service(ServiceState::Stopped, false));
    a.open_logs_folder(Some("/l"));
    assert_eq!(a.log_lines.last().map(|s| s.as_str()), Some("логи: /l"));
    a.copy_diagnostics(false);
    assert_eq!(a.log_lines.last().map(|s| s.as_str()), Some("не удалось скопировать диагностику"));
}

#[test]
fn lists_are_chosen_read_and_written() {
    let mut a = app();
    a.lists_sel = 7;
    a.open_lists(Some(strings(&["b.TXT", "a.txt", "c.bin"])));
    assert_eq!(a.lists_files, vec!["a.txt", "b.TXT"]);
    assert_eq!(a.lists_sel, 0);
    assert!(a.lists_open);
    assert_eq!(list_files(&strings(&["Б.txt", "a.txt", "B.txt"])), vec!["B.txt", "a.txt", "Б.txt"]);
    assert_eq!(a.chosen_list().as_deref(), Some("a.txt"));
    a.load_selected_list(Ok(vec![0x61, 0xff]));
    assert_eq!(a.lists_text, "a\u{fffd}");
    a.load_selected_list(Err("e".to_owned()));
    assert_eq!((a.lists_text.as_str(), a.lists_status.as_str()), ("", "ошибка чтения: e"));
    assert!(a.choose_list(1));
    assert_eq!(a.lists_status, "");
    assert!(!a.choose_list(1));
    assert_eq!(a.save_list().as_deref(), Some("b.TXT"));
    assert_eq!(a.lists_status, "сохраняю…");
    assert!(a.save_list().is_none() && a.revert_list().is_none());
    a.lists_busy = false;
    assert_eq!(a.revert_list().as_deref(), Some("b.TXT"));
    assert_eq!(a.lists_status, "откат: скачиваю стандартный…");
    a.open_lists(None);
    assert!(a.lists_files.is_empty());
    assert!(a.chosen_list().is_none());
    assert_eq!(saved_status("n", &Ok(())), "сохранено: n");
    assert_eq!(saved_status("n", &Err("e".to_owned())), "ошибка: e");
}

#[test]
fn a_list_is_brought_back() {
    let ok = revert_events("n", &Ok(b"x".to_vec()), &Ok(()));
    assert!(matches!(&ok[0], ListsEvent::SetText(t) if t == "x"));
    assert!(matches!(&ok[1], ListsEvent::Status(s) if s == "откатан стандартный: n"));
    let unwritten = revert_events("n", &Ok(vec![]), &Err("e".to_owned()));
    assert!(matches!(&unwritten[0], ListsEvent::Status(s) if s == "ошибка записи: e"));
    let unfetched = revert_events("n", &Err("e".to_owned()), &Ok(()));
    assert!(matches!(&unfetched[0], ListsEvent::Status(s) if s == "откат не удался: e"));
}

// ── views ──

#[test]
fn the_title_does_not_lie() {
    let mut a = app();
    assert_eq!(title_bar(&a), ("Выключен", Tone::Muted));
    a.service = ServiceState::Running;
    assert_eq!(title_bar(&a), ("Работает", Tone::Good));
    a.status_desync = true;
    assert_eq!(title_bar(&a), ("Ошибка", Tone::Danger));
    a.status_desync = false;
    a.op_failed = true;
    assert_eq!(title_bar(&a), ("Ошибка", Tone::Danger));
}

#[test]
fn the_simple_view_has_one_button() {
    let mut a = app();
    let v = render_simple(&a, false);
    assert_eq!((v.headline, v.button.label, v.button.act), ("Ядро не установлено", "Скачать ядро", Act::DownloadCore));
    a.update_busy = true;
    let v = render_simple(&a, false);
    assert_eq!((v.button.label, v.button.enabled), ("Скачивание…", false));
    a.update_busy = false;
    let v = render_simple(&a, true);
    assert_eq!((v.headline, v.button.label), ("Обход выключен", "Старт"));
    assert_eq!(v.button.act, Act::StartAutoselect(true, false));
    assert!(v.reset.is_none());
    a.autoselect_no_result = true;
    a.auto_best = Some("a1".to_owned());
    let v = render_simple(&a, true);
    assert_eq!((v.button.label, v.button.icon), ("Попробовать снова", Some(Icon::Refresh)));
    assert_eq!(v.detail_tone, Tone::Notice);
    assert_eq!(v.reset, Some(Act::ResetAndRescan(false)));
    a.service = ServiceState::Running;
    let v = render_simple(&a, true);
    assert_eq!((v.headline, v.button.act), ("Обход работает", Act::StopBypass));
    assert_eq!(v.detail.as_deref(), Some("a1"));
    a.autoselect_running = true;
    let v = render_simple(&a, true);
    assert_eq!((v.headline, v.button.act), ("Подбираю стратегию…", Act::CancelAutoselect));
    assert_eq!(v.detail.as_deref(), Some("запуск…"));
    a.autoselect_progress = Some(report("probe", 2, 5, "a1"));
    assert_eq!(render_simple(&a, true).detail.as_deref(), Some("Проверяю 2/5 · a1"));
    assert_eq!(mode_switch(&a), ("Расширенный режим", Icon::ChevronDown));
}

#[test]
fn the_row_of_buttons_follows_the_state() {
    let mut a = app();
    assert!(matches!(action_buttons(&a, false), ActionView::Download(b) if b.act == Act::DownloadCore));
    match action_buttons(&a, true) {
        ActionView::Row(start, test, update, lists, reset) => {
            assert_eq!((start.label, start.act, start.enabled), ("Старт", Act::StartBypass, true));
            assert_eq!((test.label, test.act), ("Тест", Act::StartTest));
            assert_eq!((update.act, lists.act), (Act::CheckAndUpdate, Act::OpenLists));
            assert!(reset.is_none());
        }
        other => panic!("{other:?}"),
    }
    a.smart_selected = true;
    a.auto_best = Some("a1".to_owned());
    a.game_filter = true;
    match action_buttons(&a, true) {
        ActionView::Row(start, _, _, _, reset) => {
            assert_eq!(start.act, Act::StartAutoselect(true, true));
            assert_eq!(reset, Some(Act::ResetAndRescan(true)));
        }
        other => panic!("{other:?}"),
    }
    a.service_busy = true;
    match action_buttons(&a, true) {
        ActionView::Row(start, _, _, _, reset) => {
            assert_eq!((start.label, start.enabled, start.icon), ("…", false, None));
            assert!(reset.is_none());
        }
        other => panic!("{other:?}"),
    }
    a.autoselect_running = true;
    a.autoselect_progress = Some(report("probe", 1, 3, ""));
    match action_buttons(&a, true) {
        ActionView::Selecting(line, cancel) => {
            assert_eq!(line, "Подбираю 1/3");
            assert_eq!(cancel.act, Act::CancelAutoselect);
        }
        other => panic!("{other:?}"),
    }
}

#[test]
fn the_menu_lists_every_strategy_in_its_group() {
    let mut a = app();
    a.selected_strategy = 9;
    a.auto_best = Some("a2".to_owned());
    let m = strategy_row(&mut a).unwrap();
    assert_eq!(a.selected_strategy, 0);
    assert_eq!(m.selected_text, "general");
    let shown: Vec<String> = m
        .items
        .iter()
        .map(|i| match i {
            MenuItem::Header(t) => format!("# {t}"),
            MenuItem::Separator => "-".to_owned(),
            MenuItem::Smart(t, b) => format!("{t} {b}"),
            MenuItem::Pick(i, t, b) => format!("{i} {t} {b}"),
        })
        .collect();
    assert_eq!(
        shown,
        vec![
            "# АВТО",
            "smart(a2) false",
            "-",
            "# GENERAL",
            "0 general true",
            "-",
            "# ALT",
            "1 a1 false",
            "2 a2 false",
        ]
    );
    a.smart_selected = true;
    assert_eq!(strategy_row(&mut a).unwrap().selected_text, "smart(a2)");
    let mut none = ZaprustApp::new(CoreScan::default(), &Config::default(), ServiceState::Unknown, None);
    assert!(strategy_row(&mut none).is_none());
}

#[test]
fn the_editor_shows_its_state() {
    let mut a = app();
    assert!(render_lists(&a).is_none());
    a.open_lists(Some(strings(&["a.txt"])));
    let v = render_lists(&a).unwrap();
    assert_eq!((v.current.as_str(), v.status.as_str(), v.save_label, v.enabled), ("a.txt", " ", "Сохранить", true));
    a.save_list();
    let v = render_lists(&a).unwrap();
    assert_eq!((v.status.as_str(), v.save_label, v.enabled), ("сохраняю…", "…", false));
}

// ── diagnostics ──

fn environment() -> Environment {
    Environment {
        version: "0.1.0".to_owned(),
        debug: false,
        elevated: true,
        os: "Debian".to_owned(),
        lines: strings(&["arch: x86_64"]),
        exe: Some("/my z".to_owned()),
        core: Some(CoreFacts {
            dir: "/c".to_owned(),
            version: Some("1.8.2".to_owned()),
            engine_version: Some(None),
            engine: "ok".to_owned(),
        }),
        state: ServiceState::Running,
        pid: Some(5),
        log: Some("/l".to_owned()),
    }
}

#[test]
fn the_log_begins_with_the_environment() {
    let lines = log_env_header(&environment());
    assert_eq!(
        lines,
        vec![
            (Level::Info, "Zaprust 0.1.0 (release), elevated=true".to_owned()),
            (Level::Info, "ос: Debian".to_owned()),
            (Level::Info, "arch: x86_64".to_owned()),
            (Level::Info, "exe: /my z".to_owned()),
            (Level::Warn, "путь к exe содержит пробел/не-ASCII — zapret и служба могут не работать".to_owned()),
            (Level::Info, "core: /c".to_owned()),
            (Level::Info, "core: ok".to_owned()),
        ]
    );
    let bare = Environment { exe: None, core: None, lines: vec![], ..environment() };
    assert_eq!(
        log_env_header(&bare).last(),
        Some(&(Level::Warn, "ядро не найдено (папка core/)".to_owned()))
    );
    assert!(is_troublesome("/ядро"));
    assert!(!is_troublesome("/core"));
}

#[test]
fn the_diagnostics_are_exact() {
    assert_eq!(
        diagnostics_text(&environment(), &strings(&["p1", "p2"])),
        "Zaprust 0.1.0 (release)\nelevated: true\nос: Debian\narch: x86_64\nexe: /my z\ncore: /c\n\
         версия Flowseal: 1.8.2\nверсия nfqws: нет\ncore ready: ok\n\
         service: Running, engine_alive: Some(5)\nlog: /l\n\n— последние проблемы (ERROR/WARN) —\np1\np2\n"
    );
    let bare = Environment { exe: None, core: None, lines: vec![], log: None, debug: true, ..environment() };
    assert_eq!(
        diagnostics_text(&bare, &[]),
        "Zaprust 0.1.0 (debug)\nelevated: true\nос: Debian\ncore: не найдено\n\
         service: Running, engine_alive: Some(5)\n\n— последние проблемы (ERROR/WARN) —\n"
    );
}

// ── pictures ──

#[test]
fn a_picture_is_read_with_its_size() {
    let pixels = vec![1u8, 2, 3, 255, 5, 6, 7, 128];
    let img = image::RgbaImage::from_raw(2, 1, pixels.clone()).unwrap();
    let mut png = std::io::Cursor::new(Vec::new());
    img.write_to(&mut png, image::ImageFormat::Png).unwrap();
    let p = load_icon(png.get_ref());
    assert_eq!((p.rgba, p.width, p.height), (pixels, 2, 1));
}

#[test]
fn an_installed_service_needs_rights_for_an_update() {
    assert!(!updates_directly(ServiceState::Running));
    assert!(!updates_directly(ServiceState::Stopped));
    assert!(updates_directly(ServiceState::NotInstalled));
    assert!(updates_directly(ServiceState::Unknown));
}

#[test]
fn what_is_no_picture_is_one_transparent_pixel() {
    let p = load_icon(b"no picture");
    assert_eq!((p.rgba, p.width, p.height), (vec![0, 0, 0, 0], 1, 1));
    let q = picture_or_blank(Some((vec![9, 8, 7, 6], 1, 1)));
    assert_eq!((q.rgba, q.width, q.height), (vec![9, 8, 7, 6], 1, 1));
}

// ── the two processes ──

#[test]
fn an_elevated_run_understands_the_interface() {
    let mut a = app();
    a.game_filter = true;
    let op = a.start_bypass().unwrap();
    let mut line = strings(&["/z"]);
    line.extend(op.args);
    match parse_mode(&line) {
        Mode::Svc(args) => assert!(matches!(run_service_command(&args), SvcAction::Install(n, true) if n == "general")),
        other => panic!("{other:?}"),
    }
    let plan = run_update_linux(&release("2"), &None, &release("v2"), &Some("v2".to_owned()));
    let mut line = strings(&["/z"]);
    line.extend(apply_args_linux(&plan, "/f.zip", "2", "/n.zip", "v2", Some("a1"), true));
    match parse_mode(&line) {
        Mode::ApplyUpdate(args) => {
            let p = apply_update_linux(&args).unwrap();
            assert_eq!((p.fs_zip.as_deref(), p.bv_zip), (Some("/f.zip"), None));
            assert_eq!((p.fs_tag.as_str(), p.bv_tag.as_str(), p.strategy.as_deref()), ("2", "v2", Some("a1")));
            assert!(p.game_filter);
        }
        other => panic!("{other:?}"),
    }
}
