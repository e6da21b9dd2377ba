//! Where the strategies of Windows come from: the batch files of the core.
use vstd::prelude::*;

use crate::bat::{
    group_of, group_rank, is_general_bat, name_of_file, read_winws_call,
};
use crate::order::{sort_by_keys, SortKey};
use crate::pick::pick_first;
use crate::platform::linux::strategy::{sort_files, BatFile};
use crate::strategies::{CoreScan, Strategy};
use crate::text::{cat, cat3, decimal_text, from_utf8_lossy, same, to_lowercase};

verus! {

use crate::bat::{
    a_plain_call_gives_its_words, general_bat, group_name, is_simple_call, outcome, rank_of,
    strategy_name, winws_tokens,
};
use crate::order::{keys_view, parts_view, sorted_stably, KeyView};
use crate::pick::first_where;
use crate::platform::linux::strategy::{all_filtered, files_view, in_path_order, BatFileView};
use crate::strategies::{views, CoreScanView, StrategyView};
use crate::text::{
    decimal, opt_str, opt_text, small_case, text_of, texts, words_of,
};

/// Puts the game filter into the arguments of a strategy: the ports of games, or a port
/// that nothing uses.
pub fn resolve_game_filter(args: &[String], game_filter_on: bool) -> (r: Vec<String>)
    ensures
        texts(r@) == all_filtered(texts(args@), game_filter_on),
{
    crate::platform::linux::strategy::resolve_game_filter(args, game_filter_on)
}

/// The directory of the core: the first of the places where it is.
pub fn find_core_dir(places: &[String], present: &[bool]) -> (r: Option<String>)
    ensures
        opt_text(r) == first_where(texts(places@), present@),
{
    pick_first(places, present)
}

/// Where the core is to be installed: beside the program, whose directory is named `last`,
/// except in a build directory; there, and where the program is not known, beside the
/// project. `beside` and `project` are these two places.
pub fn preferred_core_dir(last: Option<&str>, beside: &str, project: &str) -> (r: String)
    ensures
        r@ == (match last {
            Some(n) => if n@ == "debug"@ || n@ == "release"@ {
                project@
            } else {
                beside@
            },
            None => project@,
        }),
{
    match last {
        Some(n) => {
            if same(n, "debug") || same(n, "release") {
                project.to_owned()
            } else {
                beside.to_owned()
            }
        },
        None => project.to_owned(),
    }
}

// ── One file ────────────────────────────────────────────────────────────────

/// The strategy that a batch file holds, or why it holds none.
pub open spec fn bat_strategy(
    source_path: Seq<char>,
    name: Seq<char>,
    text: Seq<char>,
    dp0: Seq<char>,
) -> Result<StrategyView, Seq<char>> {
    match winws_tokens(text, dp0) {
        Err(e) => Err(e),
        Ok(call) => Ok(
            StrategyView {
                name,
                group: group_name(small_case(name)),
                source_path,
                args: call.0,
                raw_args: call.1,
                wf_tcp: Seq::empty(),
                wf_udp: Seq::empty(),
            },
        ),
    }
}

/// Reads the text of one batch file. `dp0` is the directory of the core with a separator
/// behind it.
pub fn parse_bat_text(source_path: &str, name: &str, text: &str, dp0: &str) -> (r: Result<
    Strategy,
    String,
>)
    ensures
        outcome(r) == bat_strategy(source_path@, name@, text@, dp0@),
{
    match read_winws_call(text, dp0) {
        Err(e) => Err(e),
        Ok(call) => {
            let s = Strategy {
                name: name.to_owned(),
                group: group_of(name),
                source_path: source_path.to_owned(),
                args: call.0,
                raw_args: call.1,
                wf_tcp: Vec::new(),
                wf_udp: Vec::new(),
            };
            assert(s@.wf_tcp =~= Seq::<Seq<char>>::empty());
            assert(s@.wf_udp =~= Seq::<Seq<char>>::empty());
            Ok(s)
        },
    }
}

/// Reads one batch file: `bytes` is what the file at `source_path` holds, `file_name` the
/// last part of its path, and `separator` what separates the parts of a path.
pub fn parse_bat(
    source_path: &str,
    file_name: Option<&str>,
    bytes: &[u8],
    core_dir: &str,
    separator: char,
) -> (r: Result<Strategy, String>)
    ensures
        outcome(r) == bat_strategy(
            source_path@,
            strategy_name(opt_str(file_name)),
            text_of(bytes@),
            core_dir@.push(separator),
        ),
{
    let text = from_utf8_lossy(bytes);
    let name = name_of_file(file_name);
    let mut dp0 = core_dir.to_owned();
    dp0.push(separator);
    parse_bat_text(source_path, name.as_str(), text.as_str(), dp0.as_str())
}

// ── Order ───────────────────────────────────────────────────────────────────

/// The sort key of a strategy: its group, then its name in small letters.
pub open spec fn plain_key(s: StrategyView) -> KeyView {
    (rank_of(s.group), seq![(0nat, small_case(s.name))])
}

/// The sort keys of a list of strategies.
pub open spec fn plain_keys(list: Seq<StrategyView>) -> Seq<KeyView> {
    Seq::new(list.len(), |i: int| plain_key(list[i]))
}

/// Sorts strategies by their groups, then by their names in small letters.
pub fn sort_strategies(items: &mut Vec<Strategy>)
    ensures
        exists|p: Seq<int>| sorted_stably(
            old(items)@,
            plain_keys(views(old(items)@)),
            final(items)@,
            p,
        ),
{
    let mut keys: Vec<SortKey> = Vec::new();
    let mut i: usize = 0;
    while i < items.len()
        invariant
            i <= items@.len(),
            items@ == old(items)@,
            keys@.len() == i,
            forall|k: int| 0 <= k < i ==> (#[trigger] keys@[k])@ == plain_key(items@[k]@),
        decreases items@.len() - i,
    {
        let mut parts: Vec<(u64, String)> = Vec::new();
        parts.push((0, to_lowercase(items[i].name.as_str())));
        assert(parts_view(parts@) =~= seq![(0nat, small_case(items@[i as int].name@))]);
        keys.push(SortKey { rank: group_rank(items[i].group.as_str()), parts });
        i += 1;
    }
    assert(keys_view(keys@) =~= plain_keys(views(items@)));
    sort_by_keys(items, keys);
}

// ── Scanning ────────────────────────────────────────────────────────────────

/// What a file gives: the strategy that it holds, or why it holds none.
pub open spec fn file_outcome(f: BatFileView, dp0: Seq<char>) -> Result<StrategyView, Seq<char>> {
    match f.content {
        Err(e) => Err("чтение: "@ + e),
        Ok(bytes) => bat_strategy(f.path, strategy_name(Some(f.file_name)), text_of(bytes), dp0),
    }
}

/// The strategies of the batch files, in the order of the files.
pub open spec fn file_strategies(files: Seq<BatFileView>, dp0: Seq<char>) -> Seq<StrategyView>
    decreases files.len(),
{
    if files.len() == 0 {
        Seq::empty()
    } else {
        let before = file_strategies(files.drop_last(), dp0);
        match file_outcome(files.last(), dp0) {
            Ok(s) => if general_bat(files.last().file_name) {
                before.push(s)
            } else {
                before
            },
            Err(_) => before,
        }
    }
}

/// The remarks on the batch files that hold no strategy.
pub open spec fn file_remarks(files: Seq<BatFileView>, dp0: Seq<char>) -> Seq<Seq<char>>
    decreases files.len(),
{
    if files.len() == 0 {
        Seq::empty()
    } else {
        let before = file_remarks(files.drop_last(), dp0);
        match file_outcome(files.last(), dp0) {
            Ok(_) => before,
            Err(why) => if general_bat(files.last().file_name) {
                before.push("пропущен "@ + files.last().file_name + ": "@ + why)
            } else {
                before
            },
        }
    }
}

/// Reads the strategies of the batch files, and the remarks on those that hold none.
pub fn read_files(files: &[BatFile], core_dir: &str, separator: char) -> (r: (
    Vec<Strategy>,
    Vec<String>,
))
    ensures
        views(r.0@) == file_strategies(files_view(files@), core_dir@.push(separator)),
        texts(r.1@) == file_remarks(files_view(files@), core_dir@.push(separator)),
{
    let ghost fs = files_view(files@);
    let ghost dp0 = core_dir@.push(separator);
    let mut found: Vec<Strategy> = Vec::new();
    let mut remarks: Vec<String> = Vec::new();
    let mut i: usize = 0;
    proof {
        assert(fs.take(0) =~= Seq::<BatFileView>::empty());
        assert(views(found@) =~= Seq::<StrategyView>::empty());
        assert(texts(remarks@) =~= Seq::<Seq<char>>::empty());
    }
    while i < files.len()
        invariant
            i <= files@.len(),
            fs == files_view(files@),
            dp0 == core_dir@.push(separator),
            views(found@) == file_strategies(fs.take(i as int), dp0),
            texts(remarks@) == file_remarks(fs.take(i as int), dp0),
        decreases files@.len() - i,
    {
        let f = &files[i];
        let ghost before = views(found@);
        let ghost said = texts(remarks@);
        proof {
            assert(fs.take(i + 1).drop_last() =~= fs.take(i as int));
            assert(fs.take(i + 1).last() == f@);
        }
        if is_general_bat(f.file_name.as_str()) {
            let got = match &f.content {
                Err(e) => Err(cat("чтение: ", e.as_str())),
                Ok(bytes) => parse_bat(
                    f.path.as_str(),
                    Some(f.file_name.as_str()),
                    bytes,
                    core_dir,
                    separator,
                ),
            };
            match got {
                Ok(s) => {
                    found.push(s);
                    assert(views(found@) =~= before.push(s@));
                },
                Err(why) => {
                    let mut m = cat3("пропущен ", f.file_name.as_str(), ": ");
                    m.append(why.as_str());
                    remarks.push(m);
                    assert(texts(remarks@) =~= said.push(m@));
                },
            }
        }
        i += 1;
    }
    assert(fs.take(fs.len() as int) =~= fs);
    (found, remarks)
}

/// What a scan gives that has read the files `fs` in this order: the strategies of the batch
/// files, sorted, and the remarks.
pub open spec fn scanned(
    r: CoreScanView,
    dir: Seq<char>,
    separator: char,
    fs: Seq<BatFileView>,
) -> bool {
    let dp0 = dir.push(separator);
    let found = file_strategies(fs, dp0);
    &&& exists|p: Seq<int>| sorted_stably(found, plain_keys(found), r.strategies, p)
    &&& r.messages == (seq!["ядро: "@ + dir] + file_remarks(fs, dp0)).push(
        "стратегий найдено: "@ + decimal(found.len()),
    )
}

/// Scans the core for strategies. Without a core, and where its directory cannot be read
/// (`files` is then the reason), there are none. `files` are the files of the core
/// directory, in any order: they are read in the order of their paths.
pub fn scan(core: Option<&str>, files: Result<Vec<BatFile>, String>, separator: char) -> (r:
    CoreScan)
    ensures
        r@.core_dir == opt_str(core),
        core is None ==> r@.strategies.len() == 0 && r@.messages == seq![
            "ядро не найдено — положите сборку Flowseal в папку core/"@,
        ],
        core matches Some(dir) ==> match files {
            Err(e) => r@.strategies.len() == 0 && r@.messages == seq![
                "ядро: "@ + dir@,
                "не удалось прочитать core/: "@ + e@,
            ],
            Ok(list) => exists|fs: Seq<BatFileView>| #[trigger]
                in_path_order(files_view(list@), fs) && scanned(r@, dir@, separator, fs),
        },
{
    let mut messages: Vec<String> = Vec::new();
    match core {
        None => {
            messages.push("ядро не найдено — положите сборку Flowseal в папку core/".to_owned());
            let r = CoreScan { core_dir: None, strategies: Vec::new(), messages };
            assert(r@.messages =~= seq![
                "ядро не найдено — положите сборку Flowseal в папку core/"@,
            ]);
            r
        },
        Some(dir) => {
            messages.push(cat("ядро: ", dir));
            assert(texts(messages@) =~= seq!["ядро: "@ + dir@]);
            let ghost first = texts(messages@);
            match files {
                Err(e) => {
                    messages.push(cat("не удалось прочитать core/: ", e.as_str()));
                    let r = CoreScan {
                        core_dir: Some(dir.to_owned()),
                        strategies: Vec::new(),
                        messages,
                    };
                    assert(r@.messages =~= seq![
                        "ядро: "@ + dir@,
                        "не удалось прочитать core/: "@ + e@,
                    ]);
                    r
                },
                Ok(given) => {
                    let mut list = given;
                    sort_files(&mut list);
                    let (mut read, mut remarks) = read_files(&list, dir, separator);
                    let ghost said = texts(remarks@);
                    let ghost found = views(read@);
                    let ghost unsorted = read@;
                    messages.append(&mut remarks);
                    assert(texts(messages@) =~= first + said);
                    sort_strategies(&mut read);
                    let ghost order = choose|p: Seq<int>|
                        sorted_stably(unsorted, plain_keys(views(unsorted)), read@, p);
                    assert(sorted_stably(found, plain_keys(found), views(read@), order)) by {
                        assert forall|i: int| 0 <= i < order.len() implies #[trigger] views(
                            read@,
                        )[i] == found[order[i]] by {
                            assert(read@[i] == unsorted[order[i]]);
                        }
                    }
                    messages.push(
                        cat("стратегий найдено: ", decimal_text(read.len() as u64).as_str()),
                    );
                    assert(texts(messages@) =~= (first + said).push(messages@.last()@));
                    let r = CoreScan {
                        core_dir: Some(dir.to_owned()),
                        strategies: read,
                        messages,
                    };
                    assert(sorted_stably(found, plain_keys(found), r@.strategies, order));
                    assert(in_path_order(files_view(given@), files_view(list@)) && scanned(
                        r@,
                        dir@,
                        separator,
                        files_view(list@),
                    ));
                    r
                },
            }
        },
    }
}

// ── What holds of every scan ────────────────────────────────────────────────

/// A file that holds one plain call is read as the strategy of that call: its arguments are
/// all the words behind the program, those that name the traffic included, since the engine
/// captures it itself; and it keeps the name and the path that it was read under.
pub proof fn a_plain_call_is_kept_whole(
    path: Seq<char>,
    name: Seq<char>,
    a: Seq<char>,
    dp0: Seq<char>,
)
    requires
        is_simple_call(a),
    ensures
        ({
            let r = bat_strategy(path, name, "winws.exe "@ + a, dp0);
            &&& r matches Ok(s)
            &&& s.name == name && s.source_path == path
            &&& s.args == words_of(a) && s.raw_args == a
            &&& s.wf_tcp.len() == 0 && s.wf_udp.len() == 0
        }),
{
    a_plain_call_gives_its_words(a, dp0);
}

/// Every batch file is accounted for, once and in its order: one that holds a strategy gives
/// that strategy, any other one gives a remark, and a file of another name gives neither. The
/// files of two parts of a list follow each other.
pub proof fn every_batch_file_is_accounted_for(
    a: Seq<BatFileView>,
    b: Seq<BatFileView>,
    dp0: Seq<char>,
)
    ensures
        file_strategies(a + b, dp0) == file_strategies(a, dp0) + file_strategies(b, dp0),
        file_remarks(a + b, dp0) == file_remarks(a, dp0) + file_remarks(b, dp0),
        file_strategies(a, dp0).len() + file_remarks(a, dp0).len() == a.filter(
            |f: BatFileView| general_bat(f.file_name),
        ).len(),
        a.len() == 1 && general_bat(a[0].file_name) ==> match a[0].content {
            Ok(bytes) => match bat_strategy(
                a[0].path,
                strategy_name(Some(a[0].file_name)),
                text_of(bytes),
                dp0,
            ) {
                Ok(s) => file_strategies(a, dp0) == seq![s],
                Err(why) => file_remarks(a, dp0) == seq![
                    "пропущен "@ + a[0].file_name + ": "@ + why,
                ],
            },
            Err(e) => file_remarks(a, dp0) == seq![
                "пропущен "@ + a[0].file_name + ": "@ + ("чтение: "@ + e),
            ],
        },
    decreases a.len() + b.len(),
{
    reveal_with_fuel(file_strategies, 2);
    reveal_with_fuel(file_remarks, 2);
    if b.len() > 0 {
        every_batch_file_is_accounted_for(a, b.drop_last(), dp0);
        assert((a + b).drop_last() =~= a + b.drop_last());
        assert((a + b).last() == b.last());
        assert(file_strategies(a + b, dp0) =~= file_strategies(a, dp0) + file_strategies(b, dp0));
        assert(file_remarks(a + b, dp0) =~= file_remarks(a, dp0) + file_remarks(b, dp0));
    } else {
        assert(a + b =~= a);
        assert(file_strategies(a, dp0) + file_strategies(b, dp0) =~= file_strategies(a, dp0));
        assert(file_remarks(a, dp0) + file_remarks(b, dp0) =~= file_remarks(a, dp0));
        reveal(Seq::filter);
        let batch = |f: BatFileView| general_bat(f.file_name);
        if a.len() > 0 {
            every_batch_file_is_accounted_for(a.drop_last(), b, dp0);
            assert(batch(a.last()) == general_bat(a.last().file_name));
        }
    }
    if a.len() == 1 {
        assert(a.drop_last() =~= Seq::empty());
        match file_outcome(a[0], dp0) {
            Ok(s) => {
                assert(Seq::<StrategyView>::empty().push(s) =~= seq![s]);
            },
            Err(why) => {
                let said = "пропущен "@ + a[0].file_name + ": "@ + why;
                assert(Seq::<Seq<char>>::empty().push(said) =~= seq![said]);
            },
        }
    }
}

/// A scan shows the strategies of the batch files and nothing else, in the order of their
/// groups and within a group of their names in small letters.
pub proof fn a_scan_shows_what_is_there(
    r: CoreScanView,
    dir: Seq<char>,
    separator: char,
    fs: Seq<BatFileView>,
    i: int,
    j: int,
)
    requires
        scanned(r, dir, separator, fs),
    ensures
        ({
            let found = file_strategies(fs, dir.push(separator));
            &&& r.strategies.len() == found.len()
            &&& 0 <= i < found.len() ==> found.contains(r.strategies[i]) && r.strategies.contains(
                found[i],
            )
            &&& 0 <= i < j < found.len() ==> rank_of(r.strategies[i].group) <= rank_of(
                r.strategies[j].group,
            )
            &&& 0 <= i < j < found.len() && r.strategies[i].group == r.strategies[j].group
                ==> !crate::order::text_lt(
                small_case(r.strategies[j].name),
                small_case(r.strategies[i].name),
            )
        }),
{
    let found = file_strategies(fs, dir.push(separator));
    let keys = plain_keys(found);
    let p = choose|p: Seq<int>| sorted_stably(found, keys, r.strategies, p);
    crate::order::sorting_orders_and_keeps(found, keys, r.strategies, p);
    if 0 <= i < found.len() {
        assert(r.strategies[i] == found[p[i]]);
        assert(r.strategies.contains(found[i]));
    }
    if 0 <= i < j < found.len() {
        let x = r.strategies[i];
        let y = r.strategies[j];
        assert(x == found[p[i]] && y == found[p[j]]);
        assert(keys[p[i]] == plain_key(x) && keys[p[j]] == plain_key(y));
        if x.group == y.group && crate::order::text_lt(small_case(y.name), small_case(x.name)) {
            let none = Seq::<(nat, Seq<char>)>::empty();
            let k = rank_of(x.group);
            crate::order::ranks_and_numbers_decide(
                (k, none),
                (k, none),
                none,
                (0nat, small_case(y.name)),
                (0nat, small_case(x.name)),
            );
            assert(none.push((0nat, small_case(y.name))) + none =~= seq![
                (0nat, small_case(y.name)),
            ]);
            assert(none.push((0nat, small_case(x.name))) + none =~= seq![
                (0nat, small_case(x.name)),
            ]);
        }
        crate::order::ranks_and_numbers_decide(
            plain_key(y),
            plain_key(x),
            Seq::empty(),
            (0nat, Seq::empty()),
            (0nat, Seq::empty()),
        );
    }
}

} // verus!
