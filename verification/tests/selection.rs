use zaprust::autoselect::{
    count_answered, early_exit_line, gate_line, launch_failure_line, median, order_index, order_strategies, passes,
    pick_winner, ping_of, probe_strategy, verify_line, verify_winner, AutoProgress, Candidate, Event, Phase, Sample,
    Selection, MARGIN, WARMUP_MS,
};
use zaprust::strategies::{CoreScan, Strategy};

fn strategy(name: &str) -> Strategy {
    Strategy {
        name: name.to_owned(),
        group: "g".to_owned(),
        source_path: String::new(),
        args: vec![],
        raw_args: String::new(),
        wf_tcp: vec![],
        wf_udp: vec![],
    }
}

fn list(names: &[&str]) -> Vec<Strategy> {
    names.iter().map(|n| strategy(n)).collect()
}

fn names(v: &[Strategy]) -> Vec<&str> {
    v.iter().map(|s| s.name.as_str()).collect()
}

fn sample(ok: bool, ms: u128) -> Sample {
    Sample { ok, ms, why: "why".to_owned() }
}

fn scan(names: &[&str]) -> CoreScan {
    CoreScan { core_dir: Some("/c".to_owned()), strategies: list(names), messages: vec![] }
}

fn report(r: &AutoProgress) -> String {
    format!("{}/{} {} {} {} {}", r.idx, r.total, r.strategy, r.stage, r.result, r.ping)
}

fn begin(args: &[&str], names: &[&str]) -> Selection {
    let args: Vec<String> = args.iter().map(|s| s.to_string()).collect();
    Selection::begin(&args, &scan(names)).unwrap()
}

#[test]
fn the_known_good_goes_first_and_then_the_general_one() {
    let l = list(&["a", "general", "b", "a"]);
    assert_eq!(names(&order_strategies(&l, Some("b"))), vec!["b", "general", "a"]);
    assert_eq!(names(&order_strategies(&l, None)), vec!["general", "a", "b"]);
    assert_eq!(names(&order_strategies(&l, Some("?"))), vec!["general", "a", "b"]);
    assert_eq!(names(&order_strategies(&l, Some("general"))), vec!["general", "a", "b"]);
    assert_eq!(order_index(&l, "b"), 2);
    assert_eq!(order_index(&l, "?"), usize::MAX);
}

#[test]
fn the_median_is_the_upper_middle() {
    assert_eq!(median(&[]), 0);
    assert_eq!(median(&[5]), 5);
    assert_eq!(median(&[9, 1, 5]), 5);
    assert_eq!(median(&[4, 1]), 4);
}

#[test]
fn a_trial_needs_every_target() {
    let good = [sample(true, 100), sample(true, 50)];
    let bad = [sample(true, 100), sample(false, 50)];
    assert!(passes(&good));
    assert!(!passes(&bad));
    let second = [sample(true, 80), sample(false, 1)];
    let third = [sample(true, 120), sample(true, 60)];
    assert_eq!(ping_of(&good, &second, &third), 160);
    assert_eq!(probe_strategy(&good, &second, &third), Some(160));
    assert_eq!(probe_strategy(&bad, &second, &third), None);
    assert_eq!(WARMUP_MS, 900);
}

#[test]
fn a_winner_needs_seven_of_ten_targets() {
    let mut v: Vec<Sample> = (0..7).map(|_| sample(true, 1)).collect();
    v.extend((0..3).map(|_| sample(false, 1)));
    assert_eq!(count_answered(&v), 7);
    assert!(verify_winner(&v));
    v.push(sample(false, 1));
    assert!(!verify_winner(&v));
    assert!(!verify_winner(&[]));
    assert_eq!(verify_line("s", &v), "верификация s: 7/11 целей доступно");
}

#[test]
fn the_log_says_what_happened() {
    assert_eq!(gate_line("s", "t", &sample(true, 12)), "[s] t → OK 12ms");
    assert_eq!(gate_line("s", "t", &sample(false, 12)), "[s] t → FAIL 12ms (why)");
    assert_eq!(launch_failure_line("s", "e"), "[s] не запустился движок: e");
    assert_eq!(early_exit_line("s", -1, ""), "[s] движок сразу вышел (код -1)");
    assert_eq!(early_exit_line("s", 2, "o"), "[s] движок сразу вышел (код 2) · o");
}

#[test]
fn a_close_second_wins_where_it_stands_earlier() {
    let l = list(&["a", "b", "c"]);
    let c = |n: &str, ping: u32| Candidate { name: n.to_owned(), ping };
    assert_eq!(pick_winner(&[c("a", 115), c("b", 100)], &l), Some(0));
    assert_eq!(pick_winner(&[c("a", 116), c("b", 100)], &l), Some(1));
    assert_eq!(pick_winner(&[c("c", 100), c("b", 100)], &l), Some(1));
    assert_eq!(pick_winner(&[], &l), None);
    assert_eq!(MARGIN, 15);
}

#[test]
fn a_selection_needs_a_core_and_strategies() {
    let none = CoreScan { core_dir: None, strategies: list(&["a"]), messages: vec![] };
    assert!(matches!(Selection::begin(&[], &none), Err(e) if e == "ядро не найдено"));
    assert!(matches!(Selection::begin(&[], &scan(&[])), Err(e) if e == "нет стратегий"));
}

#[test]
fn the_known_good_is_installed_at_once() {
    let mut s = begin(&["1", "b"], &["a", "b"]);
    assert!(s.game_filter());
    assert_eq!(s.phase(), Phase::Prepare);
    let r = s.step(Event::Prepared);
    assert_eq!(r.iter().map(report).collect::<Vec<_>>(), vec!["1/2 b lkg  0"]);
    assert_eq!(s.phase(), Phase::Quick(0));
    assert!(s.step(Event::Tried(Some(5))).is_empty());
    assert_eq!(s.phase(), Phase::Install(0));
    let r = s.step(Event::Installed(true));
    assert_eq!(r.iter().map(report).collect::<Vec<_>>(), vec!["0/0 b installed  0"]);
    assert_eq!(s.phase(), Phase::Exit(0));
}

#[test]
fn a_full_selection_checks_and_installs_the_best() {
    let mut s = begin(&["0", ""], &["a", "b"]);
    assert!(!s.game_filter());
    assert!(s.step(Event::Prepared).is_empty());
    assert_eq!(s.phase(), Phase::Ask(0));
    let r = s.step(Event::Cancel(false));
    assert_eq!(r.iter().map(report).collect::<Vec<_>>(), vec!["1/2 a probe  0"]);
    let r = s.step(Event::Tried(None));
    assert_eq!(r.iter().map(report).collect::<Vec<_>>(), vec!["1/2 a probe fail 0"]);
    s.step(Event::Cancel(false));
    let r = s.step(Event::Tried(Some(77)));
    assert_eq!(r.iter().map(report).collect::<Vec<_>>(), vec!["2/2 b probe ok 77", "0/0 b verify  0"]);
    assert_eq!(s.phase(), Phase::Verify(1));
    s.step(Event::Verified(true));
    assert_eq!(s.phase(), Phase::Install(1));
    assert!(s.step(Event::Installed(false)).is_empty());
    assert_eq!(s.phase(), Phase::Exit(1));
}

#[test]
fn nothing_is_installed_unchecked() {
    let mut s = begin(&["0"], &["a"]);
    s.step(Event::Prepared);
    s.step(Event::Cancel(false));
    s.step(Event::Tried(Some(1)));
    let r = s.step(Event::Verified(false));
    assert_eq!(s.phase(), Phase::Exit(3));
    assert_eq!(r.iter().map(report).collect::<Vec<_>>(), vec!["0/0  none  0"]);
    let mut t = begin(&["0"], &["a"]);
    t.step(Event::Prepared);
    t.step(Event::Cancel(false));
    let r = t.step(Event::Tried(None));
    assert_eq!(t.phase(), Phase::Exit(3));
    assert_eq!(r.iter().map(report).collect::<Vec<_>>(), vec!["1/1 a probe fail 0", "0/0  none  0"]);
}

#[test]
fn a_selection_can_be_canceled_before_each_trial() {
    let mut s = begin(&["0"], &["a", "b"]);
    s.step(Event::Prepared);
    s.step(Event::Cancel(false));
    s.step(Event::Tried(Some(1)));
    assert_eq!(s.phase(), Phase::Ask(1));
    let r = s.step(Event::Cancel(true));
    assert_eq!(s.phase(), Phase::Canceled(2));
    assert_eq!(r.iter().map(report).collect::<Vec<_>>(), vec!["0/0  canceled  0"]);
}
