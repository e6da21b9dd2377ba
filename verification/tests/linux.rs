use zaprust::platform::linux::desktop::{
    data_home, desktop_entry, integrate, refreshes, write_if_changed, Plan, APP_ID,
};
use zaprust::platform::linux::elevate::{
    call_line, ending_line, find_pkexec, is_elevated, parse_euid, run_elevated_self, self_exe_path, Ending, SelfExe,
};
use zaprust::platform::linux::nft::{
    detect, down, down_all, ip6_variant, iptables_ports, rules_present, up, Backend, Detection, Presence, Reading,
};
use zaprust::platform::linux::paths::{
    chown_to_invoker, clipboard_candidates, config_path, core_base, data_base, diag_lines, guessed_home, home_of_user,
    invoking_user_home, invoking_user_ids, kernel_release, os_version, passwd_field, preferred_core_dir,
    state_log_dir, Ancestor, Caller, Facts,
};
use zaprust::platform::linux::runtime::{
    bring_up, candidate_paths, diag, engine_command, ensure_lists, find_nfqws, force_down, foreground_end,
    last_engine_output, next_stage, rules_error, service_result, shutdown, spawn_error, spawn_probe, watch, Stage,
    Tick, QNUM,
};
use zaprust::platform::linux::service::{
    check_install, install, installed_strategy, remove, render_unit, sd_quote, start, state, stop, STRATEGY_MARKER,
    UNIT_NAME, UNIT_PATH,
};
use zaprust::platform::linux::status::{authoritative_running, parse_first_pid};
use zaprust::platform::linux::strategy::curated;
use zaprust::platform::linux::LinuxPlatform;
use zaprust::platform::ServiceState;
use zaprust::logging::Level;
use zaprust::script::{advance, begin, command_text, Next, Step};

fn strings(parts: &[&str]) -> Vec<String> {
    parts.iter().map(|s| s.to_string()).collect()
}

fn texts(steps: &[Step]) -> Vec<String> {
    steps.iter().map(|s| command_text(&s.command)).collect()
}

/// The commands of a script that run where `answer` says which of them succeed, and whether
/// the script came to its end.
fn run(steps: &Vec<Step>, answer: impl Fn(&str) -> bool) -> (Vec<String>, bool) {
    let mut ran = Vec::new();
    let mut next = begin(steps);
    loop {
        match next {
            Next::Run(i) => {
                let text = command_text(&steps[i].command);
                let ok = answer(&text);
                ran.push(text);
                next = advance(steps, i, ok);
            }
            Next::Done => return (ran, true),
            Next::Failed => return (ran, false),
        }
    }
}

// ── service ──

#[test]
fn unit_contains_strategy_marker_and_exec() {
    let unit = render_unit("/opt/zaprust/zaprust", "general (ALT12)", true, Some(1000));
    let parsed = unit
        .lines()
        .find_map(|l| l.strip_prefix(STRATEGY_MARKER))
        .map(|v| v.trim().to_owned());
    assert_eq!(parsed.as_deref(), Some("general (ALT12)"));
    assert!(unit.contains("--svc-run \"general (ALT12)\" 1"), "unit:\n{unit}");
    assert!(unit.contains("Environment=PKEXEC_UID=1000"));
    assert!(unit.contains("WantedBy=multi-user.target"));
    assert!(unit.contains("After=network-online.target"));
    assert!(unit.contains("ExecStopPost=") && unit.contains("--engine-down"));
}

#[test]
fn unit_without_uid_omits_environment() {
    let unit = render_unit("/usr/bin/zaprust", "general", false, None);
    assert!(!unit.contains("PKEXEC_UID"));
    assert!(unit.contains("--svc-run \"general\" 0"));
}

#[test]
fn the_unit_is_exact() {
    assert_eq!(
        render_unit("/z", "s", true, Some(5)),
        "# Сгенерировано Zaprust — не редактировать вручную (перезапишется при Старте).\n\
         # zaprust-strategy=s\n\
         [Unit]\n\
         Description=Zaprust DPI bypass (nfqws + nftables)\n\
         Documentation=https://github.com/hausond/Zaprust\n\
         After=network-online.target\n\
         Wants=network-online.target\n\
         \n\
         [Service]\n\
         Type=simple\n\
         Environment=PKEXEC_UID=5\n\
         ExecStart=\"/z\" --svc-run \"s\" 1\n\
         ExecStopPost=\"/z\" --engine-down\n\
         KillMode=mixed\n\
         Restart=on-failure\n\
         RestartSec=3\n\
         \n\
         [Install]\n\
         WantedBy=multi-user.target\n"
    );
}

#[test]
fn sd_quote_escapes_quotes_and_backslashes() {
    assert_eq!(sd_quote("plain"), "\"plain\"");
    assert_eq!(sd_quote(r#"a"b"#), "\"a\\\"b\"");
    assert_eq!(sd_quote(r"a\b"), "\"a\\\\b\"");
}

#[test]
fn the_unit_gives_its_strategy_back() {
    let unit = render_unit("/opt/zaprust", "general (ALT10)", false, None);
    assert_eq!(installed_strategy(Some(&unit)).as_deref(), Some("general (ALT10)"));
    assert_eq!(installed_strategy(Some("[Unit]\n")), None);
    assert_eq!(installed_strategy(Some("# zaprust-strategy=  \n")), None);
    assert_eq!(installed_strategy(None), None);
}

#[test]
fn the_state_of_the_unit_is_read() {
    assert_eq!(state(false, Some("active\n")), ServiceState::NotInstalled);
    assert_eq!(state(true, Some("active\n")), ServiceState::Running);
    assert_eq!(state(true, Some("activating")), ServiceState::Running);
    assert_eq!(state(true, Some("failed\n")), ServiceState::Stopped);
    assert_eq!(state(true, Some("inactive\n")), ServiceState::Stopped);
    assert_eq!(state(true, Some("deactivating\n")), ServiceState::Stopped);
    assert_eq!(state(true, Some("odd")), ServiceState::Unknown);
    assert_eq!(state(true, None), ServiceState::Unknown);
}

#[test]
fn a_service_is_installed_by_three_commands() {
    let plan = install(true, "/z", "s", true, None).unwrap();
    assert_eq!(plan.unit, render_unit("/z", "s", true, None));
    assert_eq!(
        texts(&plan.steps),
        vec![
            "systemctl daemon-reload",
            "systemctl enable zaprust.service",
            "systemctl restart zaprust.service",
        ]
    );
    assert_eq!(run(&plan.steps, |t| !t.contains("enable")).1, false);
    assert!(install(false, "/z", "s", true, None).unwrap_err().starts_with("systemd не обнаружен"));
    assert_eq!(UNIT_PATH, format!("/etc/systemd/system/{UNIT_NAME}"));
}

#[test]
fn an_installation_is_checked_first() {
    let list = curated();
    let name = list[0].name.clone();
    assert_eq!(check_install(true, "d", &list, &name), Ok(()));
    assert_eq!(check_install(false, "d", &list, &name), Err("движок не готов: d".to_owned()));
    assert_eq!(check_install(true, "d", &list, "?"), Err("стратегия не найдена: ?".to_owned()));
}

#[test]
fn a_removal_always_cleans_up() {
    let gone = remove(false);
    assert!(gone.disable.is_empty() && !gone.delete_unit && gone.forget.is_empty());
    assert_eq!(texts(&gone.clean), texts(&force_down()));
    let there = remove(true);
    assert_eq!(texts(&there.disable), vec!["systemctl disable --now zaprust.service"]);
    assert!(there.delete_unit);
    assert_eq!(
        texts(&there.forget),
        vec!["systemctl daemon-reload", "systemctl reset-failed zaprust.service"]
    );
    assert_eq!(texts(&there.clean), texts(&force_down()));
    assert!(run(&there.disable, |_| false).1);
    assert!(run(&there.clean, |_| false).1);
}

#[test]
fn a_service_starts_only_where_there_is_a_unit() {
    assert_eq!(texts(&start(true).unwrap()), vec!["systemctl start zaprust.service"]);
    assert_eq!(
        start(false).unwrap_err(),
        "служба не установлена (нет юнита) — сначала Старт/install"
    );
    assert_eq!(texts(&stop(true)), vec!["systemctl stop zaprust.service"]);
    assert!(stop(false).is_empty());
}

// ── status ──

#[test]
fn parses_first_pid_from_pgrep_output() {
    assert_eq!(parse_first_pid("1234\n"), Some(1234));
    assert_eq!(parse_first_pid("1234\n5678\n"), Some(1234));
    assert_eq!(parse_first_pid(""), None);
    assert_eq!(parse_first_pid("\n"), None);
    assert_eq!(parse_first_pid("nope"), None);
}

#[test]
fn three_signals_decide_whether_the_bypass_runs() {
    let ok = authoritative_running(ServiceState::Running, Some(7), Some(true));
    assert!(ok.running && ok.warnings.is_empty());
    let unread = authoritative_running(ServiceState::Running, Some(7), None);
    assert!(unread.running && unread.warnings.is_empty());
    let bare = authoritative_running(ServiceState::Running, Some(7), Some(false));
    assert!(!bare.running);
    assert_eq!(bare.warnings, vec!["расхождение: юнит active + nfqws жив, но правил перехвата НЕТ"]);
    let dead = authoritative_running(ServiceState::Running, None, Some(true));
    assert!(!dead.running);
    assert_eq!(dead.warnings, vec!["расхождение: юнит active=true, nfqws жив=false (pid=None)"]);
    let stray = authoritative_running(ServiceState::Stopped, Some(9), None);
    assert!(!stray.running);
    assert_eq!(stray.warnings, vec!["расхождение: юнит active=false, nfqws жив=true (pid=Some(9))"]);
    let off = authoritative_running(ServiceState::NotInstalled, None, Some(false));
    assert!(!off.running && off.warnings.is_empty());
}

// ── rules ──

#[test]
fn the_firewall_is_found_in_order() {
    match detect(&[]) {
        Detection::Probe(c) => assert_eq!(command_text(&c), "nft list ruleset"),
        other => panic!("{other:?}"),
    }
    assert!(matches!(detect(&[true]), Detection::Found(Backend::Nft)));
    match detect(&[false, false]) {
        Detection::Probe(c) => assert_eq!(command_text(&c), "iptables-legacy -S"),
        other => panic!("{other:?}"),
    }
    match detect(&[false, false, true]) {
        Detection::Found(b) => assert_eq!(b.label(), "iptables (iptables-legacy)"),
        other => panic!("{other:?}"),
    }
    assert!(matches!(detect(&[false, false, false, false]), Detection::Absent));
    assert_eq!(Backend::Nft.label(), "nftables (nft)");
}

#[test]
fn nft_rules_queue_with_bypass() {
    let steps = up(Backend::Nft, 200, &strings(&["80", "443"]), &strings(&["443", "50000-50100"]));
    assert_eq!(
        texts(&steps),
        vec![
            "nft delete table inet zaprust",
            "nft add table inet zaprust",
            "nft add chain inet zaprust post { type filter hook postrouting priority mangle; policy accept; }",
            "nft add rule inet zaprust post tcp dport {80,443} queue num 200 bypass",
            "nft add rule inet zaprust post udp dport {443,50000-50100} queue num 200 bypass",
        ]
    );
    assert_eq!(run(&steps, |t| !t.contains("delete")), (texts(&steps), true));
    let (ran, ok) = run(&steps, |t| !t.contains("chain"));
    assert!(!ok);
    assert_eq!(ran.len(), 3);
    let tcp_only = up(Backend::Nft, 1, &strings(&["80"]), &[]);
    assert_eq!(texts(&tcp_only).len(), 4);
}

#[test]
fn iptables_rules_queue_with_bypass() {
    let steps = up(Backend::Iptables("iptables-nft"), 200, &strings(&["80"]), &strings(&["5-7"]));
    let (ran, ok) = run(&steps, |t| !t.contains("-C") && !t.starts_with("ip6tables"));
    assert!(ok);
    assert!(ran.contains(
        &"iptables-nft -t mangle -A ZAPRUST -p tcp -m multiport --dports 80 -j NFQUEUE --queue-num 200 --queue-bypass"
            .to_owned()
    ));
    assert!(ran.contains(
        &"iptables-nft -t mangle -A ZAPRUST -p udp -m multiport --dports 5:7 -j NFQUEUE --queue-num 200 --queue-bypass"
            .to_owned()
    ));
    assert!(ran.contains(&"iptables-nft -t mangle -A POSTROUTING -j ZAPRUST".to_owned()));
    let (_, failed) = run(&steps, |t| !t.contains("--dports 80") && !t.contains("-C"));
    assert!(!failed);
    assert_eq!(iptables_ports(&strings(&["1", "2-3"])), "1,2:3");
    assert_eq!(ip6_variant("iptables-legacy"), "ip6tables-legacy");
    assert_eq!(ip6_variant("iptables-nft"), "ip6tables-nft");
    assert_eq!(ip6_variant("iptables"), "ip6tables");
}

#[test]
fn rules_for_ip6_are_not_required() {
    let steps = up(Backend::Iptables("iptables"), 200, &strings(&["80"]), &[]);
    let (_, ok) = run(&steps, |t| {
        if t.starts_with("ip6tables") {
            t == "ip6tables -S"
        } else {
            !t.contains("-C")
        }
    });
    assert!(ok);
}

#[test]
fn rules_are_taken_down_again() {
    assert_eq!(texts(&down(Backend::Nft)), vec!["nft delete table inet zaprust"]);
    let (ran, ok) = run(&down(Backend::Iptables("iptables")), |t| t != "ip6tables -S" && !t.contains("-C"));
    assert!(ok);
    assert_eq!(
        ran,
        vec![
            "iptables -t mangle -C POSTROUTING -j ZAPRUST",
            "iptables -t mangle -F ZAPRUST",
            "iptables -t mangle -X ZAPRUST",
            "ip6tables -S",
        ]
    );
    let (all, fine) = run(&down_all(), |_| false);
    assert!(fine);
    assert_eq!(all[0], "nft delete table inet zaprust");
    assert!(all.contains(&"iptables-legacy -t mangle -X ZAPRUST".to_owned()));
}

#[test]
fn a_jump_is_removed_as_often_as_it_is_there() {
    let (ran, _) = run(&down(Backend::Iptables("iptables")), |t| !t.starts_with("ip6tables"));
    let removed = ran.iter().filter(|t| t.contains("-D POSTROUTING")).count();
    assert_eq!(removed, 8);
}

/// A firewall: its nftables table, and by program its chain and the jumps into it.
#[derive(Clone, Debug, PartialEq)]
struct Held {
    table: bool,
    chains: Vec<String>,
    jumps: Vec<String>,
}

fn perform(held: &mut Held, command: &str) -> bool {
    let words: Vec<&str> = command.split(' ').collect();
    let prog = words[0].to_owned();
    let chain = held.chains.iter().position(|p| *p == prog);
    let jump = held.jumps.iter().position(|p| *p == prog);
    match words[1..] {
        ["delete", "table", ..] => std::mem::replace(&mut held.table, false),
        ["add", "table", ..] => {
            held.table = true;
            true
        }
        ["add", ..] => held.table,
        ["-S"] => true,
        ["-t", _, "-N", _] if chain.is_none() => {
            held.chains.push(prog);
            true
        }
        ["-t", _, "-C", ..] => jump.is_some(),
        ["-t", _, "-A", "POSTROUTING", ..] => {
            held.jumps.push(prog);
            true
        }
        ["-t", _, "-D", ..] => {
            held.jumps.remove(jump.unwrap());
            true
        }
        ["-t", _, "-X", _] => {
            if let (Some(i), None) = (chain, jump) {
                held.chains.remove(i);
                return true;
            }
            false
        }
        _ => chain.is_some(),
    }
}

fn carry_out(held: &mut Held, steps: &Vec<Step>) -> bool {
    let mut next = begin(steps);
    loop {
        match next {
            Next::Run(i) => {
                let ok = perform(held, &command_text(&steps[i].command));
                next = advance(steps, i, ok);
            }
            Next::Done => return true,
            Next::Failed => return false,
        }
    }
}

#[test]
fn taking_down_undoes_bringing_up() {
    let none = Held { table: false, chains: vec![], jumps: vec![] };
    for b in [Backend::Nft, Backend::Iptables("iptables-legacy")] {
        let mut held = none.clone();
        assert!(carry_out(&mut held, &up(b, 200, &strings(&["80"]), &strings(&["443"]))));
        assert_ne!(held, none);
        assert!(carry_out(&mut held, &down(b)));
        assert_eq!(held, none);
    }
}

#[test]
fn taking_everything_down_once_is_enough() {
    let mut held = Held {
        table: true,
        chains: strings(&["iptables", "ip6tables-nft", "other"]),
        jumps: vec!["iptables".to_owned(); 8],
    };
    assert!(carry_out(&mut held, &down_all()));
    let left = Held { table: false, chains: strings(&["other"]), jumps: vec![] };
    assert_eq!(held, left);
    assert!(carry_out(&mut held, &down_all()));
    assert_eq!(held, left);
}

#[test]
fn the_rules_are_looked_for() {
    match rules_present(&[]) {
        Presence::Ask(c) => assert_eq!(command_text(&c), "nft list table inet zaprust"),
        other => panic!("{other:?}"),
    }
    assert!(matches!(rules_present(&[Reading::Listed]), Presence::Known(true)));
    let none = Reading::Refused("Error: No Such file or directory".to_owned());
    assert!(matches!(rules_present(&[none]), Presence::Known(false)));
    match rules_present(&[Reading::Refused("Operation not permitted".to_owned())]) {
        Presence::Ask(c) => assert_eq!(command_text(&c), "iptables-nft -t mangle -S ZAPRUST"),
        other => panic!("{other:?}"),
    }
    let chain = vec![Reading::Missing, Reading::Refused("iptables: No chain/target".to_owned())];
    assert!(matches!(rules_present(&chain), Presence::Known(false)));
    let all = vec![Reading::Missing, Reading::Missing, Reading::Missing, Reading::Missing];
    assert!(matches!(rules_present(&all), Presence::Unknown));
}

// ── engine ──

#[test]
fn the_engine_is_looked_for_in_order() {
    assert_eq!(
        candidate_paths(Some("/c")),
        vec![
            "/c/nfqws",
            "/usr/local/sbin/nfqws",
            "/usr/sbin/nfqws",
            "/usr/local/bin/nfqws",
            "/usr/bin/nfqws",
            "/opt/zapret/nfqws",
        ]
    );
    assert_eq!(candidate_paths(None).len(), 5);
    let places = strings(&["/a", "/b"]);
    assert_eq!(find_nfqws(&places, &[false, true], Some("/p\n")).as_deref(), Some("/b"));
    assert_eq!(find_nfqws(&places, &[false, false], Some(" /p\n")).as_deref(), Some("/p"));
    assert_eq!(find_nfqws(&places, &[false, false], Some("\n")), None);
    assert_eq!(find_nfqws(&places, &[false, false], None), None);
}

#[test]
fn lists_of_the_arguments_must_exist() {
    let args = strings(&["--hostlist=/a", "--x=/b", "--ipset-exclude=/c", "--hostlist-exclude=/d", "--ipset=/e"]);
    assert_eq!(ensure_lists(&args), vec!["/a", "/c", "/d", "/e"]);
}

#[test]
fn the_engine_is_described() {
    assert_eq!(
        diag(Some("/n"), Some(Backend::Nft)),
        "nfqws=/n · фаервол=nftables (nft) · qnum=200"
    );
    assert_eq!(diag(Some("/n"), None), "nfqws=/n · фаервол=НЕТ (нет nft/iptables!) · qnum=200");
    assert_eq!(
        diag(None, Some(Backend::Nft)),
        "nfqws не найден — установите bol-van/zapret (автоустановка в L8)"
    );
}

#[test]
fn the_last_output_of_the_engine_is_short() {
    let text: String = (1..=20).map(|i| format!("line {i}\n\n")).collect();
    let out = last_engine_output(Some(&text));
    assert!(out.starts_with("line 9 | line 10"));
    assert!(out.ends_with(" | line 20"));
    assert_eq!(last_engine_output(None), "");
}

#[test]
fn the_command_of_the_engine_names_the_queue() {
    let s = &curated()[0];
    let cmd = engine_command(Some("/c/nfqws"), Some("/c"), s, false).unwrap();
    assert_eq!(cmd.program, "/c/nfqws");
    assert_eq!(cmd.cwd, "/c");
    assert_eq!(cmd.args[0], format!("--qnum={QNUM}"));
    assert_eq!(cmd.args.len(), s.args.len() + 1);
    assert_eq!(engine_command(Some("nfqws"), None, s, false).unwrap().cwd, "/");
    assert!(engine_command(None, None, s, false).is_none());
}

#[test]
fn an_engine_is_brought_up_behind_its_rules() {
    let s = &curated()[0];
    let l = bring_up(Some("/n"), Some(Backend::Nft), s, false, Some((1000, 1001)), true).unwrap();
    assert_eq!(l.program, "/n");
    assert_eq!(l.args[0], "--qnum=200");
    assert_eq!(l.args[1], "--uid=1000:1001");
    assert!(l.inherit);
    assert_eq!(texts(&l.clean), texts(&force_down()));
    assert!(texts(&l.rules).iter().any(|t| t.contains("{80,443} queue num 200 bypass")));
    assert_eq!(texts(&l.rollback), texts(&down(Backend::Nft)));
    assert_eq!(l.note, "правила перехвата подняты (nftables (nft)), qnum=200, tcp=[80,443] udp=[443]");
    let quiet = spawn_probe(Some("/n"), Some(Backend::Nft), s, false, None).unwrap();
    assert!(!quiet.inherit);
    assert_eq!(quiet.args[1], s.args[0]);
    assert_eq!(
        bring_up(None, Some(Backend::Nft), s, false, None, true).unwrap_err(),
        "nfqws не найден — установите bol-van/zapret (автоустановка в L8)"
    );
    assert_eq!(
        bring_up(Some("/n"), None, s, false, None, true).unwrap_err(),
        "не найден nft/iptables для правил перехвата"
    );
}

#[test]
fn the_stages_of_a_start() {
    assert_eq!(next_stage(Stage::Clean, false), Stage::Rules);
    assert_eq!(next_stage(Stage::Rules, true), Stage::Spawn);
    assert_eq!(next_stage(Stage::Rules, false), Stage::Down);
    assert_eq!(next_stage(Stage::Spawn, true), Stage::Up);
    assert_eq!(next_stage(Stage::Spawn, false), Stage::Rollback);
    assert_eq!(next_stage(Stage::Rollback, true), Stage::Down);
    assert_eq!(rules_error("x"), "правила перехвата: x");
    assert_eq!(spawn_error("x"), "nfqws не запустился: x (правила сняты)");
}

#[test]
fn a_failed_cleanup_takes_everything_down() {
    assert!(shutdown(true).is_empty());
    assert_eq!(texts(&shutdown(false)), texts(&down_all()));
    assert_eq!(texts(&force_down())[0], "pkill -x nfqws");
}

#[test]
fn a_running_engine_is_watched() {
    assert_eq!(watch(false, None), Tick::Wait);
    assert_eq!(watch(true, Some(1)), Tick::Stop);
    assert_eq!(watch(false, Some(3)), Tick::Ended(3));
    assert_eq!(service_result(0), Ok(()));
    assert_eq!(service_result(-2), Err("nfqws завершился с кодом -2; правила сняты".to_owned()));
    assert_eq!(foreground_end(5), "nfqws неожиданно завершился (код 5). Снимаю правила…");
}

// ── elevation ──

#[test]
fn root_is_recognised() {
    let status = "Name:\tx\nUid:\t1000\t0\t1000\t1000\n";
    assert_eq!(parse_euid(status).as_deref(), Some("0"));
    assert!(is_elevated(Some(status), None));
    assert!(!is_elevated(Some("Uid:\t0\t1000\n"), Some("0\n")));
    assert!(is_elevated(Some("Name:\tx\n"), Some("0\n")));
    assert!(is_elevated(None, Some("0\n")));
    assert!(!is_elevated(None, Some("1000\n")));
    assert!(!is_elevated(None, None));
}

#[test]
fn pkexec_is_looked_for_in_the_path_first() {
    assert_eq!(
        find_pkexec(Some("/x::/y")),
        vec!["/x/pkexec", "/y/pkexec", "/usr/bin/pkexec", "/bin/pkexec", "/usr/local/bin/pkexec"]
    );
    assert_eq!(find_pkexec(None).len(), 3);
}

#[test]
fn the_ends_of_an_elevated_run_are_told_apart() {
    assert_eq!(run_elevated_self(Ending::Code(0)), (Ok(0), Level::Info));
    assert_eq!(run_elevated_self(Ending::Code(3)), (Ok(3), Level::Info));
    assert_eq!(
        run_elevated_self(Ending::Code(126)),
        (Err("элевация отклонена/не авторизована (pkexec rc=126)".to_owned()), Level::Warn)
    );
    assert_eq!(
        run_elevated_self(Ending::Code(127)),
        (Err("pkexec не смог запустить реинвок (rc=127)".to_owned()), Level::Error)
    );
    assert_eq!(
        run_elevated_self(Ending::Signal(9)),
        (Err("элевированный реинвок убит сигналом 9 (без кода выхода)".to_owned()), Level::Error)
    );
    assert_eq!(
        run_elevated_self(Ending::NoPkexec),
        (Err("pkexec недоступен (polkit не установлен?)".to_owned()), Level::Error)
    );
}

// ── desktop ──

#[test]
fn the_data_directory_is_absolute() {
    assert_eq!(data_home(Some("/d"), Some("/h")).as_deref(), Some("/d"));
    assert_eq!(data_home(Some("d"), Some("/h")).as_deref(), Some("/h/.local/share"));
    assert_eq!(data_home(None, None), None);
}

#[test]
fn a_file_is_written_only_where_it_changes() {
    assert!(write_if_changed(None, b"a"));
    assert!(!write_if_changed(Some(b"a"), b"a"));
    assert!(write_if_changed(Some(b"b"), b"a"));
    assert!(write_if_changed(Some(b"ab"), b"a"));
}

#[test]
fn a_second_integration_refreshes_nothing() {
    let entry = desktop_entry("/z");
    let wanted: Vec<&[u8]> = vec![b"png", b"svg", entry.as_bytes()];
    let mut disk: Vec<Option<Vec<u8>>> = vec![None, Some(b"svg".to_vec()), Some(b"old".to_vec())];
    let mut run = || -> Vec<bool> {
        wanted
            .iter()
            .zip(disk.iter_mut())
            .map(|(bytes, file)| {
                let write = write_if_changed(file.as_deref(), bytes);
                if write {
                    *file = Some(bytes.to_vec());
                }
                write
            })
            .collect()
    };
    let first = run();
    assert_eq!(first, vec![true, false, true]);
    assert!(refreshes(&first));
    let second = run();
    assert_eq!(second, vec![false, false, false]);
    assert!(!refreshes(&second));
    assert!(!refreshes(&[]));
}

#[test]
fn the_desktop_entry_is_exact() {
    assert_eq!(
        desktop_entry("/my apps/z"),
        "[Desktop Entry]\n\
         Type=Application\n\
         Name=Zaprust\n\
         GenericName=DPI bypass\n\
         Comment=GUI для обхода DPI-блокировок (поверх zapret)\n\
         Comment[en]=Lightweight GUI for DPI bypass (zapret)\n\
         Exec=\"/my apps/z\"\n\
         Icon=zaprust\n\
         Terminal=false\n\
         Categories=Network;\n\
         Keywords=dpi;zapret;nfqws;bypass;\n\
         StartupWMClass=zaprust\n"
    );
    assert_eq!(APP_ID, "zaprust");
}

#[test]
fn the_integration_is_planned() {
    assert!(matches!(integrate(true, Some("/d"), Some("/z")), Plan::Nothing));
    match integrate(false, None, Some("/z")) {
        Plan::Warn(w) => assert_eq!(w, "не определить XDG data-каталог (нет HOME)"),
        other => panic!("{other:?}"),
    }
    match integrate(false, Some("/d"), Some("/z")) {
        Plan::Write(i) => {
            assert_eq!(i.icon_png, "/d/icons/hicolor/256x256/apps/zaprust.png");
            assert_eq!(i.icon_svg, "/d/icons/hicolor/scalable/apps/zaprust.svg");
            assert_eq!(i.app_dir, "/d/applications");
            assert_eq!(i.entry, "/d/applications/zaprust.desktop");
            assert_eq!(i.entry_text, Some(desktop_entry("/z")));
        }
        other => panic!("{other:?}"),
    }
    match integrate(false, Some("/d"), None) {
        Plan::Write(i) => assert_eq!(i.entry_text, None),
        other => panic!("{other:?}"),
    }
}

// ── paths ──

#[test]
fn a_field_of_the_user_database_is_read() {
    let line = "ann:x:1000:1001:Ann:/home/ann:/bin/sh\n";
    assert_eq!(passwd_field(Some(line), 5).as_deref(), Some("/home/ann"));
    assert_eq!(passwd_field(Some(line), 3).as_deref(), Some("1001"));
    assert_eq!(passwd_field(Some("a::b\n"), 1), None);
    assert_eq!(passwd_field(Some(line), 9), None);
    assert_eq!(passwd_field(None, 5), None);
}

#[test]
fn the_home_of_the_caller_is_found() {
    assert_eq!(home_of_user("ann", Some("/h/ann"), true).as_deref(), Some("/h/ann"));
    assert_eq!(home_of_user("ann", None, true).as_deref(), Some("/home/ann"));
    assert_eq!(home_of_user("ann", None, false), None);
    assert_eq!(home_of_user("/abs", None, true).as_deref(), Some("/abs"));
    assert_eq!(guessed_home("ann"), "/home/ann");
    let plain = Caller { pkexec_home: None, sudo_user: None, sudo_home: None, sudo_guess: false, home: Some("/root") };
    assert_eq!(invoking_user_home(&plain).as_deref(), Some("/root"));
    let pk = Caller { pkexec_home: Some("/home/p"), sudo_user: Some("s"), ..plain };
    assert_eq!(invoking_user_home(&pk).as_deref(), Some("/home/p"));
    let root = Caller { sudo_user: Some("root"), sudo_home: None, sudo_guess: true, pkexec_home: None, home: Some("/root") };
    assert_eq!(invoking_user_home(&root).as_deref(), Some("/root"));
}

#[test]
fn the_ids_of_the_caller_are_never_those_of_root() {
    assert_eq!(invoking_user_ids(Some("1000"), Some("1001"), None, None), Some((1000, 1001)));
    assert_eq!(invoking_user_ids(Some("0"), Some("0"), Some("1000"), Some("1002")), Some((1000, 1002)));
    assert_eq!(invoking_user_ids(None, None, Some("1000"), None), Some((1000, 1000)));
    assert_eq!(invoking_user_ids(None, None, Some("0"), Some("5")), None);
    assert_eq!(invoking_user_ids(Some("x"), Some("1"), None, None), None);
}

#[test]
fn the_directories_of_the_program() {
    assert_eq!(data_base(Some("/h")).as_deref(), Some("/h/.local/share/zaprust"));
    assert_eq!(core_base(Some("/h")).as_deref(), Some("/h/.local/share/zaprust/core"));
    assert_eq!(core_base(None), None);
    assert_eq!(preferred_core_dir(None), "core");
    assert_eq!(config_path(false, Some("/x"), Some("/h")).as_deref(), Some("/x/zaprust/config.json"));
    assert_eq!(config_path(true, Some("/x"), Some("/h")).as_deref(), Some("/h/.config/zaprust/config.json"));
    assert_eq!(config_path(false, Some("x"), Some("/h")).as_deref(), Some("/h/.config/zaprust/config.json"));
    assert_eq!(config_path(false, None, None), None);
    assert_eq!(state_log_dir(Some("/h")).as_deref(), Some("/h/.local/state/zaprust/logs"));
}

#[test]
fn the_owner_is_set_right() {
    let anc = vec![
        Ancestor { path: "/h/.local/share/zaprust".to_owned(), name: "zaprust".to_owned() },
        Ancestor { path: "/h".to_owned(), name: "h".to_owned() },
    ];
    let cmds: Vec<String> = chown_to_invoker(true, Some((1, 2)), "/h/.local/share/zaprust/core", &anc)
        .iter()
        .map(command_text)
        .collect();
    assert_eq!(cmds, vec!["chown -R 1:2 /h/.local/share/zaprust/core", "chown 1:2 /h/.local/share/zaprust"]);
    assert!(chown_to_invoker(false, Some((1, 2)), "/x", &anc).is_empty());
    assert!(chown_to_invoker(true, None, "/x", &anc).is_empty());
}

#[test]
fn the_system_is_described() {
    assert_eq!(os_version(Some("A=1\nPRETTY_NAME=\"Debian 12\"\n"), "linux"), "Debian 12");
    assert_eq!(os_version(Some("PRETTY_NAME=\"\"\n"), "linux"), "linux");
    assert_eq!(os_version(None, "linux"), "linux");
    assert_eq!(kernel_release(Some("6.1\n")), "6.1");
    assert_eq!(kernel_release(None), "?");
    let lines = diag_lines(&Facts {
        kernel: "6.1",
        arch: "x86_64",
        systemd: true,
        backend: None,
        euid: "1000",
        nfqws: None,
        rules: None,
        appimage: None,
        target: Err("e"),
    });
    assert_eq!(
        lines,
        vec![
            "ядро Linux: 6.1",
            "arch: x86_64",
            "systemd: да",
            "фаервол: нет nft/iptables",
            "euid: 1000",
            "nfqws: не найден",
            "правила перехвата: ?(нет прав на чтение)",
            "APPIMAGE: (не задан)",
            "цель реинвока: ?(e)",
        ]
    );
}

#[test]
fn the_clipboard_follows_the_session() {
    let wayland: Vec<String> = clipboard_candidates(true).iter().map(command_text).collect();
    assert_eq!(wayland, vec!["wl-copy ", "xclip -selection clipboard", "xsel --clipboard --input"]);
    let x11: Vec<String> = clipboard_candidates(false).iter().map(command_text).collect();
    assert_eq!(x11[2], "wl-copy ");
}

#[test]
fn the_platform_can_be_made() {
    let _ = LinuxPlatform::new();
    assert!(ServiceState::Running.installed());
    assert!(ServiceState::Stopped.installed());
    assert!(!ServiceState::NotInstalled.installed());
    assert!(!ServiceState::default().installed());
}

#[test]
fn the_program_is_started_from_its_image() {
    assert_eq!(self_exe_path(true, Err("gone"), false), Ok(SelfExe::Image));
    assert_eq!(self_exe_path(false, Ok(()), true), Ok(SelfExe::Resolved));
    assert_eq!(self_exe_path(false, Ok(()), false), Ok(SelfExe::Running));
    assert_eq!(
        self_exe_path(false, Err("gone"), false),
        Err("не удалось определить путь к себе: gone".to_owned())
    );
}

#[test]
fn an_elevated_run_is_told() {
    let args = vec!["--svc".to_owned(), "start".to_owned()];
    assert_eq!(call_line("/opt/z", &args), "вызываю pkexec для: /opt/z --svc start");
    let (result, level) = run_elevated_self(Ending::NotStarted("denied".to_owned()));
    assert_eq!(level, Level::Error);
    assert_eq!(ending_line(&result), "не удалось запустить pkexec: denied");
    let (result, _) = run_elevated_self(Ending::Code(126));
    assert_ne!(result, run_elevated_self(Ending::Code(127)).0);
    assert_eq!(ending_line(&Ok(3)), "реинвок завершён, код=3");
}

#[test]
fn the_interface_and_its_elevated_runs_share_core_and_log() {
    let user = Caller { pkexec_home: None, sudo_user: None, sudo_home: None, sudo_guess: false, home: Some("/home/ann") };
    let pkexec = Caller { pkexec_home: Some("/home/ann"), home: Some("/root"), ..user };
    let sudo = Caller { sudo_user: Some("ann"), sudo_home: Some("/home/ann"), home: Some("/root"), ..user };
    let home = invoking_user_home(&user);
    for c in [&pkexec, &sudo] {
        let elevated = invoking_user_home(c);
        assert_eq!(core_base(elevated.as_deref()), core_base(home.as_deref()));
        assert_eq!(state_log_dir(elevated.as_deref()), state_log_dir(home.as_deref()));
    }
    assert_eq!(core_base(home.as_deref()).as_deref(), Some("/home/ann/.local/share/zaprust/core"));
    assert_eq!(state_log_dir(home.as_deref()).as_deref(), Some("/home/ann/.local/state/zaprust/logs"));
}
