use zaprust::platform::linux::strategy::curated;
use zaprust::platform::windows::elevate::{join_params, refusal_text};
use zaprust::platform::windows::runtime::{
    diagnosis, engine_command, ensure_user_lists, install_service, prepare_sweep, prime_done, prime_failure, spawn_probe,
    win_join,
};
use zaprust::platform::windows::service::{
    authoritative_running, build_bin_path, install, installed_strategy, parse_reg_sz, query, query_capitals, remove,
    start, stop, stop_driver, strategy_query, uninstall, winws_alive, MAX_BIN_PATH,
};
use zaprust::platform::windows::strategy::preferred_core_dir;
use zaprust::platform::windows::{engine_diag, engine_installed, os_version, EngineFiles, WindowsPlatform};
use zaprust::platform::ServiceState;
use zaprust::script::{advance, begin, command_text, Next, Step};

fn strings(parts: &[&str]) -> Vec<String> {
    parts.iter().map(|s| s.to_string()).collect()
}

fn texts(steps: &[Step]) -> Vec<String> {
    steps.iter().map(|s| command_text(&s.command)).collect()
}

fn ends(steps: &Vec<Step>, answer: impl Fn(&str) -> bool) -> bool {
    let mut next = begin(steps);
    loop {
        match next {
            Next::Run(i) => next = advance(steps, i, answer(&command_text(&steps[i].command))),
            Next::Done => return true,
            Next::Failed => return false,
        }
    }
}

#[test]
fn parses_reg_sz_value_with_spaces() {
    let out = "\r\nHKEY_LOCAL_MACHINE\\System\\CurrentControlSet\\Services\\zapret\r\n    zapret-discord-youtube    REG_SZ    general (ALT10)\r\n";
    assert_eq!(parse_reg_sz(out).as_deref(), Some("general (ALT10)"));
    assert_eq!(parse_reg_sz("no value here"), None);
}

#[test]
fn the_strategy_of_the_service_is_in_the_registry() {
    assert_eq!(
        command_text(&strategy_query()),
        "reg query HKLM\\System\\CurrentControlSet\\Services\\zapret /v zapret-discord-youtube"
    );
    assert_eq!(installed_strategy(Some("x REG_SZ  general ")).as_deref(), Some("general"));
    assert_eq!(installed_strategy(None), None);
}

#[test]
fn the_state_of_the_service_is_read() {
    assert_eq!(query(Some("STATE : 4 running")), ServiceState::Running);
    assert_eq!(query(Some("state : 1 Stopped")), ServiceState::Stopped);
    assert_eq!(query(Some("start_pending")), ServiceState::Stopped);
    assert_eq!(query(Some("FAILED 1060")), ServiceState::NotInstalled);
    assert_eq!(query(Some("it does not exist")), ServiceState::NotInstalled);
    assert_eq!(query(Some("odd")), ServiceState::Unknown);
    assert_eq!(query(None), ServiceState::Unknown);
    assert_eq!(query_capitals("running"), ServiceState::Unknown);
}

#[test]
fn the_process_of_the_engine_is_found() {
    assert_eq!(winws_alive(Some("\"WinWS.exe\",\"1234\",\"Console\"\r\n")), Some(1234));
    assert_eq!(winws_alive(Some("\"winws.exe\"\r\n")), Some(0));
    assert_eq!(winws_alive(Some("INFO: none\r\n")), None);
    assert_eq!(winws_alive(None), None);
}

#[test]
fn two_signals_decide_whether_the_bypass_runs() {
    assert!(authoritative_running(ServiceState::Running, Some(1)).running);
    let dead = authoritative_running(ServiceState::Running, None);
    assert!(!dead.running);
    assert_eq!(dead.warnings, vec!["расхождение: служба RUNNING=true, winws жив=false"]);
    assert!(authoritative_running(ServiceState::Stopped, None).warnings.is_empty());
}

#[test]
fn the_command_line_of_the_service_is_quoted() {
    assert_eq!(
        build_bin_path("C:\\w.exe", &strings(&["--a", "b c", "", "d\"e"])),
        "\"C:\\w.exe\" --a \"b c\" \"\" \"d\\\"e\""
    );
}

#[test]
fn a_service_is_removed_and_uninstalled() {
    assert_eq!(
        texts(&remove()),
        vec!["net stop zapret", "sc delete zapret", "taskkill /IM winws.exe /F"]
    );
    assert!(!ends(&remove(), |t| !t.starts_with("sc")));
    assert!(ends(&remove(), |t| t.starts_with("sc")));
    assert_eq!(
        texts(&stop_driver()),
        vec!["net stop WinDivert", "sc delete WinDivert", "net stop WinDivert14", "sc delete WinDivert14"]
    );
    assert!(ends(&uninstall(), |_| false));
    assert_eq!(texts(&start()), vec!["sc start zapret"]);
    assert_eq!(texts(&stop()), vec!["sc stop zapret"]);
}

#[test]
fn a_service_is_installed() {
    let plan = install("C:\\w.exe", &strings(&["--a"]), "general");
    assert!(ends(&plan.cleanup, |_| false));
    let steps = plan.create.unwrap();
    let lines = texts(&steps);
    assert_eq!(lines[0], "netsh interface tcp set global timestamps=enabled");
    assert_eq!(
        lines[1],
        "sc create zapret binPath= \"C:\\w.exe\" --a DisplayName= zapret (Zaprust) start= auto"
    );
    assert!(lines.contains(&"sc start zapret".to_owned()));
    assert_eq!(
        lines.last().map(|s| s.as_str()),
        Some("reg add HKLM\\System\\CurrentControlSet\\Services\\zapret /v zapret-discord-youtube /t REG_SZ /d general /f")
    );
    assert!(!ends(&steps, |t| !t.contains("create")));
    assert!(!ends(&steps, |t| t != "sc start zapret"));
    assert!(ends(&steps, |t| t.contains("create") || t == "sc start zapret"));
}

#[test]
fn a_command_line_has_a_limit() {
    let long = "x".repeat(MAX_BIN_PATH);
    match install("w", &[long], "l").create {
        Err(e) => assert_eq!(e, "командная строка службы слишком длинная: 8004 символов (лимит ~8191)"),
        Ok(_) => panic!("too long"),
    }
}

#[test]
fn the_command_of_the_engine_lies_in_the_core() {
    let s = &curated()[0];
    let cmd = engine_command(Some("C:\\core"), s, false).unwrap();
    assert_eq!(cmd.program, "C:\\core\\bin\\winws.exe");
    assert_eq!(cmd.cwd, "C:\\core\\bin");
    assert_eq!(cmd.args, s.args);
    assert!(engine_command(None, s, false).is_none());
    assert_eq!(spawn_probe(None, s, false).unwrap_err(), "ядро не найдено");
    assert_eq!(win_join("a", "b"), "a\\b");
}

#[test]
fn lists_of_the_user_must_exist() {
    let args = strings(&["--ipset=\"C:\\l-user.txt\"", "--hostlist=C:\\l.txt", "m-user.txt"]);
    assert_eq!(ensure_user_lists(&args), vec!["C:\\l-user.txt", "m-user.txt"]);
}

#[test]
fn a_sweep_begins_with_a_free_driver() {
    let list = curated();
    let idle = prepare_sweep(Some("C:\\core"), &list, false, ServiceState::NotInstalled, None);
    assert!(idle.clear.is_none());
    assert_eq!(texts(&idle.driver), texts(&stop_driver()));
    assert_eq!(idle.prime.unwrap().args, list[0].args);
    let busy = prepare_sweep(Some("C:\\core"), &list, false, ServiceState::NotInstalled, Some(1));
    assert_eq!(texts(&busy.clear.unwrap()), texts(&remove()));
    let bare = prepare_sweep(None, &list, false, ServiceState::Stopped, None);
    assert!(bare.clear.is_some() && bare.prime.is_none());
}

#[test]
fn an_engine_that_ends_is_reported() {
    assert_eq!(prime_failure(Some(1), ""), "прайм: winws сразу вышел (код Some(1))");
    assert_eq!(prime_failure(None, "x"), "прайм: winws сразу вышел (код None) · winws: x");
    assert_eq!(prime_done(ServiceState::Running, "x"), "прайм завершён, WinDivert: Running · winws: x");
    assert_eq!(prime_done(ServiceState::Unknown, ""), "прайм завершён, WinDivert: Unknown");
    assert_eq!(diagnosis(Some(Some(1)), "x"), "диагностика winws: вышел код Some(1) · winws: x");
    assert_eq!(
        diagnosis(None, ""),
        "диагностика winws: остался жив при прямом запуске (проблема в режиме службы)"
    );
}

#[test]
fn an_installation_is_checked_step_by_step() {
    let list = curated();
    let name = list[0].name.clone();
    assert_eq!(install_service(None, &list, &name, true, false).unwrap_err(), "ядро не найдено");
    assert_eq!(
        install_service(Some("C:\\c"), &list, "?", true, false).unwrap_err(),
        "стратегия не найдена: ?"
    );
    assert_eq!(
        install_service(Some("C:\\c"), &list, &name, false, false).unwrap_err(),
        "не найден C:\\c\\bin\\winws.exe"
    );
    let plan = install_service(Some("C:\\c"), &list, &name, true, false).unwrap();
    assert_eq!(plan.command.args, list[0].args);
    assert!(plan.install.create.is_ok());
}

#[test]
fn parameters_with_spaces_are_quoted() {
    assert_eq!(join_params(&strings(&["--svc", "install", "general (ALT)"])), "--svc install \"general (ALT)\"");
    assert_eq!(refusal_text(1223), "элевация отклонена пользователем (UAC: Нет)");
    assert_eq!(refusal_text(5), "элевация не удалась (GetLastError=5)");
}

#[test]
fn the_engine_is_described_by_its_files() {
    let all = EngineFiles { winws: true, dll: true, sys: true };
    assert!(engine_installed(Some(all)));
    assert!(!engine_installed(Some(EngineFiles { sys: false, ..all })));
    assert!(!engine_installed(None));
    assert_eq!(
        engine_diag(Some(all), None),
        "winws.exe=true WinDivert.dll=true WinDivert64.sys=true version=нет"
    );
    assert_eq!(engine_diag(None, None), "ядро не найдено");
    assert_eq!(os_version(Some("\r\nMicrosoft Windows\r\n"), "windows"), "Microsoft Windows");
    assert_eq!(os_version(Some(" "), "windows"), "windows");
    let _ = WindowsPlatform::new();
}

#[test]
fn the_core_goes_to_the_last_place() {
    assert_eq!(preferred_core_dir(None, "b", "p"), "p");
}
