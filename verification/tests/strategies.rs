use zaprust::bat::{
    collect_vars, expand_once, expand_vars, extract_args_after_winws, file_stem, find_winws, group_of, group_rank,
    is_general_bat, join_continuations, name_of_file, natural_key, natural_parts, parse_flowseal, parse_set, part_tokens,
    read_winws_call, sort_strategies, split_args, split_ports, strip_comments,
};
use zaprust::platform::linux::strategy::{
    capture_ports, curated, game_filter_value, resolve_game_filter, scan, sort_files, BatFile, GAME_PORTS,
};
use zaprust::platform::windows;
use zaprust::strategies::{find_named, CoreScan, Strategy};

const ALT_BAT: &str = r#"@echo off
chcp 65001 > nul
:: 65001 - UTF-8
cd /d "%~dp0"
set "BIN=%~dp0bin\"
set "LISTS=%~dp0lists\"
start "zapret: %~n0" /min "%BIN%winws.exe" --wf-tcp=80,443,2053,8443,%GameFilterTCP% --wf-udp=443,50000-50100,%GameFilterUDP% ^
--filter-udp=443 --hostlist="%LISTS%list-general.txt" --dpi-desync=fake --dpi-desync-fake-quic="%BIN%quic_initial_www_google_com.bin" --new ^
--filter-tcp=80,443 --dpi-desync=fake,fakedsplit --dpi-desync-fake-tls="%BIN%tls_clienthello_www_google_com.bin"
"#;

const SAMPLE_BAT: &str = r#"@echo off
chcp 65001 > nul
:: комментарий
cd /d "%~dp0"
set "BIN=%~dp0bin\"
set "LISTS=%~dp0lists\"
start "zapret: %~n0" /min "%BIN%winws.exe" --wf-tcp=80,443,%GameFilterTCP% ^
--filter-tcp=443 --hostlist="%LISTS%list-general.txt" --dpi-desync=fake --dpi-desync-fake-tls="%BIN%tls.bin" --new ^
--filter-tcp=%GameFilterTCP% --dpi-desync=multisplit
"#;

fn strategy(name: &str) -> Strategy {
    Strategy {
        name: name.to_owned(),
        group: group_of(name),
        source_path: String::new(),
        args: vec!["--x".to_owned()],
        raw_args: "--x".to_owned(),
        wf_tcp: vec![],
        wf_udp: vec![],
    }
}

fn strings(parts: &[&str]) -> Vec<String> {
    parts.iter().map(|s| s.to_string()).collect()
}

fn names(list: &[Strategy]) -> Vec<&str> {
    list.iter().map(|s| s.name.as_str()).collect()
}

fn flowseal(name: &str, wf_tcp: &[&str], wf_udp: &[&str]) -> Strategy {
    Strategy {
        name: name.to_owned(),
        group: "ALT".to_owned(),
        source_path: String::new(),
        args: vec!["--filter-tcp=%GameFilterTCP%".to_owned(), "--dpi-desync=fake".to_owned()],
        raw_args: String::new(),
        wf_tcp: strings(wf_tcp),
        wf_udp: strings(wf_udp),
    }
}

#[test]
fn extracts_wf_ports_and_strips_them() {
    let core = "/tmp/zaprust_core";
    let s = parse_flowseal(
        "/tmp/zaprust_core/general (ALT).bat",
        Some("general (ALT).bat"),
        ALT_BAT.as_bytes(),
        core,
    )
    .unwrap();

    assert_eq!(s.group, "ALT");
    assert_eq!(s.wf_tcp, vec!["80", "443", "2053", "8443", "%GameFilterTCP%"]);
    assert_eq!(s.wf_udp, vec!["443", "50000-50100", "%GameFilterUDP%"]);
    assert!(!s.args.iter().any(|a| a.starts_with("--wf-")), "args: {:?}", s.args);

    let joined = s.args.join(" ");
    assert!(!joined.contains("%BIN%") && !joined.contains("%LISTS%"));
    assert!(!joined.contains('\\'), "остался backslash: {joined}");
    assert!(
        s.args.iter().any(|a| a.contains(core) && a.ends_with("quic_initial_www_google_com.bin")),
        "ожидали абсолютный путь к payload: {:?}",
        s.args
    );
}

#[test]
fn flowseal_arguments_are_exact() {
    let s = parse_flowseal("/c/general (ALT).bat", Some("general (ALT).bat"), ALT_BAT.as_bytes(), "/c").unwrap();
    assert_eq!(s.name, "general (ALT)");
    assert_eq!(s.source_path, "/c/general (ALT).bat");
    assert_eq!(
        s.args,
        vec![
            "--filter-udp=443",
            "--hostlist=/c/lists/list-general.txt",
            "--dpi-desync=fake",
            "--dpi-desync-fake-quic=/c/bin/quic_initial_www_google_com.bin",
            "--new",
            "--filter-tcp=80,443",
            "--dpi-desync=fake,fakedsplit",
            "--dpi-desync-fake-tls=/c/bin/tls_clienthello_www_google_com.bin",
        ]
    );
}

#[test]
fn bat_skips_bat_without_winws() {
    let body = "@echo off\nset BIN=%~dp0bin\\\necho hi\n";
    assert!(parse_flowseal("/c/general (BAD).bat", Some("general (BAD).bat"), body.as_bytes(), "/c").is_err());
}

#[test]
fn natural_sort_orders_alt_numerically() {
    let mut v = vec![
        strategy("general (ALT10)"),
        strategy("general (ALT2)"),
        strategy("general"),
        strategy("general (ALT)"),
    ];
    sort_strategies(&mut v);
    assert_eq!(names(&v), vec!["general", "general (ALT)", "general (ALT2)", "general (ALT10)"]);
}

#[test]
fn curated_is_nonempty_and_well_formed() {
    let all = curated();
    assert!(all.len() >= 5, "ожидали несколько стратегий, есть {}", all.len());
    for s in &all {
        assert!(!s.name.is_empty());
        assert!(!s.group.is_empty(), "пустая группа у {}", s.name);
        assert!(!s.args.is_empty(), "пустые аргументы у {}", s.name);
        assert!(
            !s.args.iter().any(|a| a.contains("--qnum")),
            "стратегия {} не должна нести --qnum",
            s.name
        );
        assert!(
            s.args.iter().any(|a| a.starts_with("--dpi-desync")),
            "стратегия {} без desync-флагов",
            s.name
        );
    }
}

#[test]
fn builtin_capture_defaults_and_game_filter() {
    let s = curated().into_iter().next().unwrap();
    let (tcp, udp) = capture_ports(&s, false);
    assert_eq!(tcp, vec!["80", "443"]);
    assert_eq!(udp, vec!["443"]);
    let (tcp_g, udp_g) = capture_ports(&s, true);
    assert!(tcp_g.contains(&GAME_PORTS.to_owned()) && udp_g.contains(&GAME_PORTS.to_owned()));
}

#[test]
fn flowseal_capture_resolves_game_filter_token() {
    let s = flowseal("general (ALT)", &["80", "443", "%GameFilterTCP%"], &["443", "%GameFilterUDP%"]);
    let (tcp_off, udp_off) = capture_ports(&s, false);
    assert_eq!(tcp_off, vec!["80", "443"]);
    assert_eq!(udp_off, vec!["443"]);
    let (tcp_on, _udp_on) = capture_ports(&s, true);
    assert_eq!(tcp_on, vec!["80", "443", GAME_PORTS]);
}

#[test]
fn resolve_game_filter_substitutes_placeholders() {
    let args = vec!["--filter-tcp=%GameFilterTCP%".to_owned()];
    assert_eq!(resolve_game_filter(&args, false), vec!["--filter-tcp=12"]);
    assert_eq!(resolve_game_filter(&args, true), vec![format!("--filter-tcp={GAME_PORTS}")]);
    let plain = vec!["--filter-tcp=443".to_owned()];
    assert_eq!(resolve_game_filter(&plain, true), plain);
}

#[test]
fn a_resolved_game_filter_stays_as_it_is() {
    let args = strings(&["--a=%GameFilterTCP%,%GameFilterUDP%,%GameFilter%", "--b"]);
    let once = resolve_game_filter(&args, true);
    assert_eq!(once, strings(&["--a=1024-65535,1024-65535,1024-65535", "--b"]));
    assert_eq!(resolve_game_filter(&once, false), once);
    assert_eq!(game_filter_value(true), "1024-65535");
    assert_eq!(game_filter_value(false), "12");
}

#[test]
fn parses_real_format_and_substitutes_vars() {
    let core = "/tmp/zaprust_test";
    let s = windows::strategy::parse_bat(
        "/tmp/zaprust_test/general.bat",
        Some("general.bat"),
        SAMPLE_BAT.as_bytes(),
        core,
        '/',
    )
    .unwrap();

    let joined = s.args.join(" ");
    assert!(!joined.contains("%BIN%"), "%BIN% не подставлен: {joined}");
    assert!(!joined.contains("%LISTS%"), "%LISTS% не подставлен");
    assert!(!joined.contains("%~dp0"), "%~dp0 не подставлен");
    assert!(joined.contains("%GameFilterTCP%"), "GameFilter должен остаться для рантайма");

    assert!(
        s.args.iter().any(|a| a.contains(core) && a.contains("list-general.txt")),
        "ожидали абсолютный путь к list-general.txt: {:?}",
        s.args
    );
    assert!(s.args[0].starts_with("--wf-tcp"), "первый аргумент: {:?}", s.args.first());
}

#[test]
fn strategies_skips_bat_without_winws() {
    let body = "@echo off\nset BIN=%~dp0bin\\\necho nothing here\n";
    let res = windows::strategy::parse_bat(
        "/c/general (BROKEN).bat",
        Some("general (BROKEN).bat"),
        body.as_bytes(),
        "/c",
        '/',
    );
    assert!(res.is_err(), "битый батник без winws должен дать Err");
}

#[test]
fn resolve_game_filter_substitutes_by_toggle() {
    let args = vec![
        "--wf-tcp=80,443,%GameFilterTCP%".to_owned(),
        "--filter-udp=%GameFilterUDP%".to_owned(),
    ];
    let off = windows::strategy::resolve_game_filter(&args, false);
    assert_eq!(off[0], "--wf-tcp=80,443,12");
    assert_eq!(off[1], "--filter-udp=12");

    let on = windows::strategy::resolve_game_filter(&args, true);
    assert_eq!(on[0], "--wf-tcp=80,443,1024-65535");
    assert_eq!(on[1], "--filter-udp=1024-65535");
}

#[test]
fn groups_by_filename() {
    assert_eq!(group_of("general"), "general");
    assert_eq!(group_of("general (ALT2)"), "ALT");
    assert_eq!(group_of("general (FAKE TLS AUTO)"), "FAKE TLS");
    assert_eq!(group_of("general (Simple Fake)"), "Simple Fake");
}

#[test]
fn split_args_respects_quotes() {
    let v = split_args(r#"--a=1 --host="C:\path with space\l.txt" --b"#);
    assert_eq!(v, vec!["--a=1", r#"--host=C:\path with space\l.txt"#, "--b"]);
}

#[test]
fn arguments_without_quotes_split_at_white_space() {
    assert_eq!(split_args("  --a\t--b   --c "), vec!["--a", "--b", "--c"]);
    assert!(split_args("   ").is_empty());
}

#[test]
fn comments_and_continuations_are_read() {
    let kept = strip_comments("a\n:: b\nREM c\nrem\nd ^\ne\n");
    assert_eq!(join_continuations(&kept), vec!["a", "d  e"]);
}

#[test]
fn a_setting_is_read_with_and_without_quotes() {
    assert_eq!(parse_set("set \"BIN=%~dp0bin\\\""), Some(("BIN".to_owned(), "%~dp0bin\\".to_owned())));
    assert_eq!(parse_set("SET lists=x"), Some(("lists".to_owned(), "x".to_owned())));
    assert_eq!(parse_set("echo hi"), None);
}

#[test]
fn variables_are_expanded_in_their_settings() {
    let lines = strings(&["set A=1", "set B=%A%2"]);
    let vars = collect_vars(&lines, "/c/");
    assert_eq!(expand_vars("%B%-%a%-%C%", &vars), "12-1-%C%");
    assert_eq!(expand_once("%A%", &vars), ("1".to_owned(), true));
    assert_eq!(expand_once("plain", &vars), ("plain".to_owned(), false));
}

#[test]
fn the_call_of_the_engine_is_found() {
    let lines = strings(&["echo", "start \"x\" \"C:\\WINWS.exe\" --a", "winws.exe --b"]);
    let line = find_winws(&lines).unwrap();
    assert_eq!(extract_args_after_winws(&line), "--a");
    assert_eq!(find_winws(&lines[..1]), None);
    let (tokens, raw) = read_winws_call("set X=1\nwinws.exe --n=%X%\n", "/c/").unwrap();
    assert_eq!(tokens, vec!["--n=1"]);
    assert_eq!(raw, "--n=%X%");
}

#[test]
fn quoted_arguments_are_split_into_themselves() {
    let parts = ["--a=1 2", "", "  ", "x"];
    let line = parts.map(|p| format!("\"{p}\"")).join(" ");
    assert_eq!(split_args(&line), strings(&parts));
}

#[test]
fn capture_ports_leave_the_arguments() {
    let p = part_tokens(&strings(&["--wf-tcp=1, 2", "--x", "--wf-udp=3", "--wf-l3=ipv4"]));
    assert_eq!(p.wf_tcp, vec!["1", "2"]);
    assert_eq!(p.wf_udp, vec!["3"]);
    assert_eq!(p.args, vec!["--x", "--wf-l3=ipv4"]);
    assert_eq!(split_ports("80,,443, "), vec!["80", "443"]);
}

#[test]
fn files_are_chosen_and_named() {
    assert!(is_general_bat("General (ALT).BAT"));
    assert!(!is_general_bat("service.bat"));
    assert!(!is_general_bat("general.txt"));
    assert_eq!(file_stem("general (ALT).bat"), "general (ALT)");
    assert_eq!(name_of_file(Some("general.bat")), "general");
}

#[test]
fn groups_have_a_rank() {
    assert!(group_rank("general") < group_rank("ALT"));
    assert!(group_rank("ALT") < group_rank("FAKE TLS"));
    assert!(group_rank("FAKE TLS") < group_rank("Simple Fake"));
    assert_eq!(natural_key("ALT10")[1].0, 10);
}

#[test]
fn letters_of_any_script_count_in_the_natural_order() {
    let word = |s: &str| vec![(0, s.to_owned())];
    assert_eq!(natural_key("Ж"), word("ж"));
    assert_eq!(natural_parts("ж"), word("ж"));
    assert_eq!(natural_key("«Ё» — É!"), word("ёé"));
    assert_eq!(natural_key(" ()-_.\u{a0}…"), vec![]);
    assert_eq!(natural_key("Обход 2"), vec![(0, "обход".to_owned()), (2, String::new())]);
    assert_eq!(natural_key("\u{60c}\u{61b}\u{61f}\u{589}\u{964}\u{37e}№→²"), vec![]);
    assert_eq!(natural_key("あ、京"), word("あ京"));
    assert_eq!(natural_key("(ALT)"), word("alt"));
}

#[test]
fn ports_that_are_not_named_are_the_usual_ones() {
    let (tcp, udp) = capture_ports(&flowseal("a", &[], &["50000-50100"]), false);
    assert_eq!((tcp, udp), (strings(&["80", "443"]), strings(&["50000-50100"])));
    let (tcp, udp) = capture_ports(&flowseal("a", &["443"], &[]), true);
    assert_eq!((tcp, udp), (strings(&["443"]), strings(&["443", GAME_PORTS])));
}

#[test]
fn files_are_read_in_the_order_of_their_paths() {
    let file = |p: &str| BatFile { path: p.to_owned(), file_name: "general.bat".to_owned(), content: Err("x".to_owned()) };
    let mut v = vec![file("/c/b"), file("/c/B"), file("/c/a1"), file("/c/a")];
    sort_files(&mut v);
    let order: Vec<&str> = v.iter().map(|f| f.path.as_str()).collect();
    assert_eq!(order, vec!["/c/B", "/c/a", "/c/a1", "/c/b"]);
}

#[test]
fn windows_sorts_by_group_and_small_letters() {
    let mut v = vec![
        strategy("general (Simple Fake)"),
        strategy("general (ALT2)"),
        strategy("general (alt10)"),
        strategy("general"),
    ];
    windows::strategy::sort_strategies(&mut v);
    assert_eq!(names(&v), vec!["general", "general (alt10)", "general (ALT2)", "general (Simple Fake)"]);
}

#[test]
fn a_scan_reads_the_files_of_the_core() {
    let files = vec![
        BatFile {
            path: "/c/general (ALT).bat".to_owned(),
            file_name: "general (ALT).bat".to_owned(),
            content: Ok(ALT_BAT.as_bytes().to_vec()),
        },
        BatFile {
            path: "/c/general (BAD).bat".to_owned(),
            file_name: "general (BAD).bat".to_owned(),
            content: Ok(b"echo".to_vec()),
        },
        BatFile {
            path: "/c/general.bat".to_owned(),
            file_name: "general.bat".to_owned(),
            content: Ok(SAMPLE_BAT.as_bytes().to_vec()),
        },
    ];
    let found = scan(Some("/c/nfqws"), Some("/c"), files);
    assert_eq!(found.core_dir.as_deref(), Some("/c"));
    assert_eq!(names(&found.strategies), vec!["general", "general (ALT)"]);
    assert_eq!(found.messages[0], "движок: nfqws /c/nfqws");
    assert!(found.messages[1].starts_with("пропущен general (BAD).bat: "));
    assert_eq!(found.messages[2], "стратегии Flowseal: 2");
}

#[test]
fn a_scan_without_a_core_has_the_built_in_strategies() {
    let found = scan(None, None, vec![]);
    assert_eq!(found.core_dir, None);
    assert_eq!(found.strategies.len(), curated().len());
    assert!(found.messages[0].starts_with("nfqws не найден"));
    assert_eq!(
        found.messages[1],
        format!("ядро Flowseal не найдено — встроенные стратегии: {}", curated().len())
    );
}

#[test]
fn a_scan_on_windows_needs_a_core() {
    let none = windows::strategy::scan(None, Ok(vec![]), '\\');
    assert_eq!(none.core_dir, None);
    assert!(none.strategies.is_empty());
    let files = vec![BatFile {
        path: "C:\\c\\general.bat".to_owned(),
        file_name: "general.bat".to_owned(),
        content: Ok(SAMPLE_BAT.as_bytes().to_vec()),
    }];
    let found = windows::strategy::scan(Some("C:\\c"), Ok(files), '\\');
    assert_eq!(names(&found.strategies), vec!["general"]);
    assert_eq!(found.messages.last().map(|s| s.as_str()), Some("стратегий найдено: 1"));
    assert!(found.strategies[0].args.contains(&"--hostlist=C:\\c\\lists\\list-general.txt".to_owned()));
}

#[test]
fn the_core_directory_is_the_first_that_is_there() {
    let places = strings(&["a", "b", "c"]);
    assert_eq!(windows::strategy::find_core_dir(&places, &[false, true, true]).as_deref(), Some("b"));
    assert_eq!(windows::strategy::find_core_dir(&places, &[false, false, false]), None);
}

#[test]
fn bytes_that_are_no_text_do_not_stop_the_reading() {
    let mut body = b"winws.exe --a=".to_vec();
    body.push(0xff);
    let s = parse_flowseal("/c/general.bat", Some("general.bat"), &body, "/c").unwrap();
    assert_eq!(s.args, vec!["--a=\u{fffd}"]);
}

#[test]
fn strategies_are_found_by_name_and_copied() {
    let list = vec![strategy("a"), strategy("b"), strategy("b")];
    assert_eq!(find_named(&list, "b"), Some(1));
    assert_eq!(find_named(&list, "c"), None);
    let scan = CoreScan { core_dir: None, strategies: list, messages: vec!["m".to_owned()] };
    let copy = scan.clone();
    assert_eq!(names(&copy.strategies), vec!["a", "b", "b"]);
    assert_eq!(copy.messages, vec!["m"]);
    assert!(CoreScan::default().strategies.is_empty());
}
