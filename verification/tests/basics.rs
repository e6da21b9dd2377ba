use zaprust::logging::{
    debug, error, info, init, log_dir, log_path, now, pad, panic_text, pick_log_dir, recent_problems, rotate, sibling,
    warn, FileOp, Level, Logger, Moment, MAX_LOG,
};
use zaprust::order::{key_before, sort_by_keys, text_before, SortKey};
use zaprust::pick::pick_first;
use zaprust::script::{
    advance, begin, chain, coded_failure_text, command_text, excuse, failed_run_text, failed_start_text, failure_text, may_run, missing_text, must_run,
    run_quietly, Next, OnFail,
};
use zaprust::text::{
    ascii_lowered, decimal_text, decimal_wide, join, join_path, lines, occurs, parse_u32, parse_u64, position, replace,
    signed_text, split_on, split_whitespace, strip_prefix, strip_suffix, trim, trim_char, trim_end_text,
    trim_start_text,
};

fn strings(parts: &[&str]) -> Vec<String> {
    parts.iter().map(|s| s.to_string()).collect()
}

fn logger(verbose: bool) -> Logger {
    init(Some("/d".to_owned()), "/d/zaprust.log".to_owned(), "gui", 42, verbose)
}

// ── text ──

#[test]
fn texts_are_cut_and_joined() {
    assert_eq!(trim("\u{a0} a\tb \r\n"), "a\tb");
    assert_eq!(trim_char("\"\"a\"", '"'), "a");
    assert_eq!(trim_start_text("ababc", "ab"), "c");
    assert_eq!(trim_end_text("cabab", "ab"), "c");
    assert_eq!(strip_prefix("abc", "ab"), Some("c"));
    assert_eq!(strip_prefix("abc", "b"), None);
    assert_eq!(strip_suffix("abc", "bc"), Some("a"));
    assert_eq!(split_on("a::b", ':'), vec!["a", "", "b"]);
    assert_eq!(split_whitespace(" a\u{2003}b "), vec!["a", "b"]);
    assert_eq!(lines("a\r\nb\n\nc"), vec!["a", "b", "", "c"]);
    assert!(lines("").is_empty());
    assert_eq!(join(&strings(&["a", "b"]), ", "), "a, b");
    assert_eq!(join_path("/a", "b"), "/a/b");
}

#[test]
fn texts_are_searched_and_replaced() {
    assert_eq!(position("aab", "ab"), Some(1));
    assert_eq!(position("aab", "c"), None);
    assert!(occurs("abc", ""));
    assert_eq!(replace("aaa", "aa", "b"), "ba");
    assert_eq!(replace("abc", "x", "y"), "abc");
    assert_eq!(ascii_lowered("AbÉ"), "abÉ");
}

#[test]
fn numbers_are_written_and_read_back() {
    for n in [0u64, 7, 10, 255, u64::MAX] {
        assert_eq!(decimal_text(n), n.to_string());
        assert_eq!(parse_u64(&decimal_text(n)), Some(n));
    }
    assert_eq!(decimal_wide(u128::MAX), u128::MAX.to_string());
    assert_eq!(signed_text(i32::MIN), i32::MIN.to_string());
    assert_eq!(parse_u32("4294967295"), Some(u32::MAX));
    assert_eq!(parse_u32("4294967296"), None);
    assert_eq!(parse_u32("+5"), Some(5));
    assert_eq!(parse_u32("-5"), None);
    assert_eq!(parse_u32(""), None);
    assert_eq!(parse_u32("+"), None);
    assert_eq!(parse_u32("007"), Some(7));
}

// ── order ──

#[test]
fn sorting_keeps_the_order_of_equals() {
    let key = |rank: u8, n: u64, t: &str| SortKey { rank, parts: vec![(n, t.to_owned())] };
    assert!(text_before("a", "ab"));
    assert!(!text_before("b", "ab"));
    assert!(key_before(&key(0, 9, "z"), &key(1, 0, "a")));
    assert!(key_before(&key(0, 2, "z"), &key(0, 10, "a")));
    let mut v = vec!["x2", "y1", "x1", "y2"];
    let keys = vec![key(1, 0, ""), key(0, 0, ""), key(1, 0, ""), key(0, 0, "")];
    sort_by_keys(&mut v, keys);
    assert_eq!(v, vec!["y1", "y2", "x2", "x1"]);
}

#[test]
fn the_first_that_fits_is_picked() {
    let v = strings(&["a", "b", "c"]);
    assert_eq!(pick_first(&v, &[false, true, true]).as_deref(), Some("b"));
    assert_eq!(pick_first(&v, &[false, false]), None);
    assert_eq!(pick_first(&[], &[true]), None);
}

// ── scripts ──

#[test]
fn a_script_stops_where_it_must() {
    let steps = vec![
        may_run("a", strings(&["1"])),
        run_quietly("b", vec![]),
        must_run("c", vec![]),
        may_run("d", vec![]),
    ];
    assert_eq!(begin(&steps), Next::Run(0));
    assert_eq!(advance(&steps, 0, false), Next::Run(1));
    assert_eq!(advance(&steps, 1, false), Next::Run(2));
    assert_eq!(advance(&steps, 2, false), Next::Failed);
    assert_eq!(advance(&steps, 2, true), Next::Run(3));
    assert_eq!(advance(&steps, 3, false), Next::Done);
    assert_eq!(begin(&vec![]), Next::Done);
    assert!(steps[1].quiet);
}

#[test]
fn a_script_can_be_excused() {
    let mut steps = vec![must_run("a", vec![]), must_run("b", vec![])];
    excuse(&mut steps, true);
    assert_eq!(advance(&steps, 0, false), Next::Done);
    assert!(matches!(steps[0].on_fail, OnFail::Warn(_)));
    let both = chain(vec![may_run("x", vec![])], vec![must_run("y", vec![])]);
    assert_eq!(both.len(), 2);
    assert_eq!(advance(&both, 1, false), Next::Failed);
}

#[test]
fn failures_of_commands_are_told() {
    let step = must_run("nft", strings(&["add", "x"]));
    let c = &step.command;
    assert_eq!(command_text(c), "nft add x");
    assert_eq!(failure_text(c, " no\n"), "nft add x: no");
    assert_eq!(coded_failure_text(c, -1, "no \n"), "nft add x: код=-1 no");
    assert_eq!(missing_text(c, "gone"), "nft: gone");
    assert_eq!(failed_run_text(c, Some(1), " no\n"), "nft add x: no");
    assert_eq!(failed_start_text(c, "gone"), "nft: gone");
    let step = must_run("systemctl", strings(&["start", "x"]));
    assert_eq!(failed_run_text(&step.command, Some(5), "no"), "systemctl start x: код=5 no");
    assert_eq!(failed_run_text(&step.command, None, "no"), "systemctl start x: код=-1 no");
    assert_eq!(failed_start_text(&step.command, "gone"), "systemctl start x: gone");
}

// ── the log ──

#[test]
fn an_entry_is_one_line() {
    let l = logger(true);
    let line = zaprust::logging::write(Some(&l), "T", Level::Error, "c", "a\nb\nc").unwrap();
    assert_eq!(line, "[T] [ERROR] [gui:42] [c] a | b | c\n");
    assert_eq!(line.matches('\n').count(), 1);
}

#[test]
fn the_level_decides_what_is_written() {
    let quiet = logger(false);
    let loud = logger(true);
    assert_eq!(error(Some(&quiet), "T", "c", "m").unwrap(), "[T] [ERROR] [gui:42] [c] m\n");
    assert_eq!(warn(Some(&quiet), "T", "c", "m").unwrap(), "[T] [WARN] [gui:42] [c] m\n");
    assert_eq!(info(Some(&quiet), "T", "c", "m").unwrap(), "[T] [INFO] [gui:42] [c] m\n");
    assert_eq!(debug(Some(&quiet), "T", "c", "m"), None);
    assert_eq!(debug(Some(&loud), "T", "c", "m").unwrap(), "[T] [DEBUG] [gui:42] [c] m\n");
    assert_eq!(info(None, "T", "c", "m"), None);
    assert_eq!(Level::Warn.tag(), "WARN");
    assert!(Level::Error.sev() < Level::Debug.sev());
}

#[test]
fn the_place_of_the_log_is_known() {
    let l = logger(false);
    assert_eq!(log_dir(Some(&l)).as_deref(), Some("/d"));
    assert_eq!(log_path(Some(&l)).as_deref(), Some("/d/zaprust.log"));
    assert_eq!(log_dir(None), None);
    assert_eq!(log_path(None), None);
    let dirs = strings(&["/a", "/b"]);
    assert_eq!(pick_log_dir(&dirs, &[false, true], "/t"), "/b");
    assert_eq!(pick_log_dir(&dirs, &[false, false], "/t"), "/t");
}

#[test]
fn recent_problems_are_the_last_ones() {
    let text = "[x] [ERROR] 1\n[x] [INFO] 2\n[x] [WARN] 3\n[x] [ERROR] 4\n";
    assert_eq!(recent_problems(Some(text), 2), vec!["[x] [WARN] 3", "[x] [ERROR] 4"]);
    assert_eq!(recent_problems(Some(text), 9).len(), 3);
    assert!(recent_problems(None, 9).is_empty());
}

#[test]
fn only_the_level_makes_a_problem() {
    let text = "[t] [INFO] [gui:1] [x] saw [ERROR] text\n[t] [WARN] [gui:1] [x] w\n";
    assert_eq!(recent_problems(Some(text), 5), vec!["[t] [WARN] [gui:1] [x] w"]);
    assert!(recent_problems(Some("[ERROR] bare\n[t] [DEBUG] [WARN]\n"), 5).is_empty());
}

#[test]
fn a_full_log_ages() {
    assert!(rotate(MAX_LOG).is_empty());
    let ops = rotate(MAX_LOG + 1);
    assert_eq!(ops.len(), 4);
    assert!(matches!(ops[0], FileOp::Remove(3)));
    assert!(matches!(ops[1], FileOp::Rename(2, 3)));
    assert!(matches!(ops[2], FileOp::Rename(1, 2)));
    assert!(matches!(ops[3], FileOp::Rename(0, 1)));
    assert_eq!(sibling(2), "zaprust.2.log");
}

#[test]
fn a_moment_is_written_with_zeros() {
    let t = Moment { year: 2024, month: 3, day: 9, hour: 1, minute: 2, second: 3, millis: 4 };
    assert_eq!(now(t), "2024-03-09 01:02:03.004");
    assert_eq!(pad(123, 2), "123");
    assert_eq!(panic_text(Some("a.rs:1"), None, "bt"), "PANIC at a.rs:1: <no message>\nbt");
    assert_eq!(panic_text(None, Some("m"), "bt"), "PANIC at ?: m\nbt");
}
