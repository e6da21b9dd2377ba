//! The auto-selection: every strategy is tried in turn, and the best one is installed.
//!
//! A strategy counts when all targets of the selection answer under it. Among those that
//! count, the fastest wins; one that is hardly slower wins over it when it stands earlier
//! in the order. The winner is installed only after it has passed a check against the full
//! list of targets.
use vstd::prelude::*;

use crate::strategies::{find_named, CoreScan, Strategy};
use crate::text::{cat, cat3, copy_opt, decimal_text, decimal_wide, same, signed_text};

verus! {

use crate::strategies::{
    index_named, lemma_index_named, named, the_first_of_a_name_is_found, views, StrategyView,
};
use crate::text::{decimal, opt_str, opt_text, signed};
use vstd::relations::{sorted_by, total_ordering};

/// How long an engine warms up before anything is measured, in milliseconds.
pub const WARMUP_MS: u64 = 900;

// ── The order of the trials ─────────────────────────────────────────────────

/// The list with a strategy behind it, unless one of that name is in it.
pub open spec fn with_new(list: Seq<StrategyView>, s: StrategyView) -> Seq<StrategyView> {
    if named(list, s.name) {
        list
    } else {
        list.push(s)
    }
}

/// The list with the first strategy of that name in `from` behind it.
pub open spec fn with_named(
    list: Seq<StrategyView>,
    from: Seq<StrategyView>,
    name: Seq<char>,
) -> Seq<StrategyView> {
    match index_named(from, name) {
        Some(i) => with_new(list, from[i]),
        None => list,
    }
}

/// The list with all strategies of `from` behind it.
pub open spec fn with_all(list: Seq<StrategyView>, from: Seq<StrategyView>) -> Seq<StrategyView>
    decreases from.len(),
{
    if from.len() == 0 {
        list
    } else {
        with_new(with_all(list, from.drop_last()), from.last())
    }
}

/// The order of the trials: the last known good one, then `general`, then the others.
pub open spec fn trial_order(list: Seq<StrategyView>, lkg: Option<Seq<char>>) -> Seq<
    StrategyView,
> {
    let first = match lkg {
        Some(n) => with_named(Seq::empty(), list, n),
        None => Seq::empty(),
    };
    with_all(with_named(first, list, "general"@), list)
}

fn push_new(out: &mut Vec<Strategy>, s: &Strategy)
    ensures
        views(final(out)@) == with_new(views(old(out)@), s@),
{
    let ghost before = views(out@);
    match find_named(out, s.name.as_str()) {
        Some(i) => {
            assert(before[i as int].name == s@.name);
        },
        None => {
            assert(!named(before, s@.name)) by {
                if named(before, s@.name) {
                    let i = choose|i: int|
                        0 <= i < before.len() && (#[trigger] before[i]).name == s@.name;
                    assert(out@[i].name@ == before[i].name);
                }
            }
            out.push(s.clone());
            assert(views(out@) =~= before.push(s@));
        },
    }
}

fn push_named(out: &mut Vec<Strategy>, from: &[Strategy], name: &str)
    ensures
        views(final(out)@) == with_named(views(old(out)@), views(from@), name@),
{
    match find_named(from, name) {
        Some(i) => {
            assert(views(from@)[i as int] == from@[i as int]@);
            push_new(out, &from[i]);
        },
        None => {},
    }
}

/// The order of the trials: the last known good one, then `general`, then the others, each
/// name once.
pub fn order_strategies(strats: &[Strategy], lkg: Option<&str>) -> (r: Vec<Strategy>)
    ensures
        views(r@) == trial_order(views(strats@), opt_str(lkg)),
{
    let mut out: Vec<Strategy> = Vec::new();
    assert(views(out@) =~= Seq::<StrategyView>::empty());
    match lkg {
        Some(n) => {
            push_named(&mut out, strats, n);
        },
        None => {},
    }
    push_named(&mut out, strats, "general");
    let ghost first = views(out@);
    let ghost all = views(strats@);
    let mut i: usize = 0;
    assert(all.take(0) =~= Seq::<StrategyView>::empty());
    while i < strats.len()
        invariant
            i <= strats@.len(),
            all == views(strats@),
            views(out@) == with_all(first, all.take(i as int)),
        decreases strats@.len() - i,
    {
        proof {
            assert(all.take(i + 1).drop_last() =~= all.take(i as int));
            assert(all.take(i + 1).last() == strats@[i as int]@);
        }
        push_new(&mut out, &strats[i]);
        i += 1;
    }
    assert(all.take(all.len() as int) =~= all);
    out
}

/// No two strategies of the list have the same name.
pub open spec fn distinct(list: Seq<StrategyView>) -> bool {
    forall|i: int, j: int|
        0 <= i < j < list.len() ==> (#[trigger] list[i]).name != (#[trigger] list[j]).name
}

proof fn lemma_with_new(list: Seq<StrategyView>, s: StrategyView)
    requires
        distinct(list),
    ensures
        distinct(with_new(list, s)),
        named(with_new(list, s), s.name),
        with_new(list, s).len() >= list.len(),
        forall|i: int| 0 <= i < list.len() ==> with_new(list, s)[i] == #[trigger] list[i],
{
    let r = with_new(list, s);
    if named(list, s.name) {
    } else {
        assert(r[list.len() as int].name == s.name);
        assert forall|i: int, j: int| 0 <= i < j < r.len() implies (#[trigger] r[i]).name != (
        #[trigger] r[j]).name by {
            if j == list.len() {
                assert(r[i] == list[i]);
            }
        }
    }
}

proof fn lemma_with_all(list: Seq<StrategyView>, from: Seq<StrategyView>)
    requires
        distinct(list),
    ensures
        distinct(with_all(list, from)),
        with_all(list, from).len() >= list.len(),
        forall|i: int| 0 <= i < list.len() ==> with_all(list, from)[i] == #[trigger] list[i],
        forall|i: int| 0 <= i < from.len() ==> named(with_all(list, from), #[trigger] from[i].name),
        forall|i: int|
            0 <= i < with_all(list, from).len() ==> {
                let s = #[trigger] with_all(list, from)[i];
                list.contains(s) || from.contains(s)
            },
    decreases from.len(),
{
    if from.len() > 0 {
        let t = from.drop_last();
        lemma_with_all(list, t);
        let mid = with_all(list, t);
        lemma_with_new(mid, from.last());
        let r = with_all(list, from);
        assert forall|i: int| 0 <= i < from.len() implies named(r, #[trigger] from[i].name) by {
            if i < t.len() {
                assert(t[i] == from[i]);
                assert(named(mid, t[i].name));
                let k = choose|k: int| 0 <= k < mid.len() && (#[trigger] mid[k]).name == t[i].name;
                assert(r[k] == mid[k]);
            }
        }
        assert forall|i: int| 0 <= i < r.len() implies {
            let s = #[trigger] r[i];
            list.contains(s) || from.contains(s)
        } by {
            if i < mid.len() {
                assert(r[i] == mid[i]);
                if t.contains(mid[i]) {
                    let k = choose|k: int| 0 <= k < t.len() && t[k] == mid[i];
                    assert(from[k] == mid[i]);
                }
            } else {
                assert(r[i] == from[from.len() - 1]);
            }
        }
    } else {
        assert forall|i: int| 0 <= i < list.len() implies list.contains(#[trigger] list[i]) by {}
    }
}

/// The trials try every strategy, and each name once; the last known good one comes first
/// where it is there, and `general` comes before all others but that one.
pub proof fn trials_are_complete(list: Seq<StrategyView>, lkg: Option<Seq<char>>)
    ensures
        distinct(trial_order(list, lkg)),
        forall|i: int|
            0 <= i < list.len() ==> named(trial_order(list, lkg), #[trigger] list[i].name),
        forall|i: int|
            0 <= i < trial_order(list, lkg).len() ==> list.contains(
                #[trigger] trial_order(list, lkg)[i],
            ),
        lkg matches Some(n) && named(list, n) ==> trial_order(list, lkg).len() > 0 && trial_order(
            list,
            lkg,
        )[0].name == lkg->0,
        (lkg matches Some(n) && named(list, n) && n != "general"@) && named(list, "general"@)
            ==> trial_order(list, lkg).len() > 1 && trial_order(list, lkg)[1].name == "general"@,
        !(lkg matches Some(n) && named(list, n)) && named(list, "general"@) ==> trial_order(
            list,
            lkg,
        ).len() > 0 && trial_order(list, lkg)[0].name == "general"@,
{
    let none = Seq::<StrategyView>::empty();
    let first = match lkg {
        Some(n) => with_named(none, list, n),
        None => none,
    };
    let g = "general"@;
    lemma_index_named(list, g);
    match lkg {
        Some(n) => {
            lemma_index_named(list, n);
            if named(list, n) {
                lemma_with_new(none, list[index_named(list, n)->0]);
                assert(!named(none, n));
                assert(first =~= seq![list[index_named(list, n)->0]]);
            }
        },
        None => {},
    }
    assert(distinct(first));
    let second = with_named(first, list, g);
    if named(list, g) {
        lemma_with_new(first, list[index_named(list, g)->0]);
    }
    assert(distinct(second));
    lemma_with_all(second, list);
    let r = trial_order(list, lkg);
    assert forall|i: int| 0 <= i < second.len() implies list.contains(#[trigger] second[i]) by {
        if first.len() > 0 {
            assert(list.contains(first[0]));
        }
        if named(list, g) {
            assert(list.contains(list[index_named(list, g)->0]));
        }
        if i < first.len() {
            assert(second[i] == first[i]);
        }
    }
    assert forall|i: int| 0 <= i < r.len() implies list.contains(#[trigger] r[i]) by {
        if second.contains(r[i]) {
            let k = choose|k: int| 0 <= k < second.len() && second[k] == r[i];
            assert(list.contains(second[k]));
        }
    }
    if first.len() > 0 {
        assert(second[0] == first[0]);
        assert(r[0] == second[0]);
        if named(list, g) && first[0].name != g {
            assert(!named(first, g)) by {
                if named(first, g) {
                    let k = choose|k: int| 0 <= k < first.len() && (#[trigger] first[k]).name == g;
                    assert(k == 0);
                }
            }
            assert(second.len() == 2 && second[1].name == g);
            assert(r[1] == second[1]);
        }
    } else if named(list, g) {
        assert(!named(first, g));
        assert(second.len() == 1 && second[0].name == g);
        assert(r[0] == second[0]);
    }
}

proof fn lemma_with_all_keeps_order(list: Seq<StrategyView>, from: Seq<StrategyView>)
    requires
        distinct(list),
    ensures
        forall|p: int|
            list.len() <= p < with_all(list, from).len() ==> {
                let s = #[trigger] with_all(list, from)[p];
                index_named(from, s.name) matches Some(i) && s == from[i]
            },
        forall|p: int, q: int|
            list.len() <= p < q < with_all(list, from).len() ==> index_named(
                from,
                (#[trigger] with_all(list, from)[p]).name,
            )->0 < index_named(from, (#[trigger] with_all(list, from)[q]).name)->0,
    decreases from.len(),
{
    if from.len() > 0 {
        let t = from.drop_last();
        lemma_with_all_keeps_order(list, t);
        lemma_with_all(list, t);
        let mid = with_all(list, t);
        let r = with_all(list, from);
        assert forall|p: int| list.len() <= p < mid.len() implies {
            let s = #[trigger] mid[p];
            index_named(from, s.name) == index_named(t, s.name)
        } by {
            let s = mid[p];
            let i = index_named(t, s.name)->0;
            the_first_of_a_name_is_found(t, s.name, i);
            assert forall|j: int| 0 <= j < i implies (#[trigger] from[j]).name != s.name by {
                assert(t[j] == from[j]);
            }
            assert(t[i] == from[i]);
            the_first_of_a_name_is_found(from, s.name, i);
        }
        if !named(mid, from.last().name) {
            let n = from.len() - 1;
            assert forall|j: int| 0 <= j < n implies (#[trigger] from[j]).name
                != from.last().name by {
                assert(t[j] == from[j]);
                assert(named(mid, t[j].name));
            }
            the_first_of_a_name_is_found(from, from.last().name, n);
            assert forall|p: int| list.len() <= p < mid.len() implies index_named(
                from,
                (#[trigger] mid[p]).name,
            )->0 < n by {
                lemma_index_named(t, mid[p].name);
            }
        }
        assert forall|p: int| 0 <= p < mid.len() implies r[p] == #[trigger] mid[p] by {}
        assert forall|p: int, q: int| list.len() <= p < q < r.len() implies index_named(
            from,
            (#[trigger] r[p]).name,
        )->0 < index_named(from, (#[trigger] r[q]).name)->0 by {
            assert(r[p] == mid[p]);
            if q < mid.len() {
                assert(r[q] == mid[q]);
            }
        }
        assert forall|p: int| list.len() <= p < r.len() implies {
            let s = #[trigger] r[p];
            index_named(from, s.name) matches Some(i) && s == from[i]
        } by {
            if p < mid.len() {
                assert(r[p] == mid[p]);
                let i = index_named(t, mid[p].name)->0;
                lemma_index_named(t, mid[p].name);
                assert(t[i] == from[i]);
            }
        }
    }
}

/// Apart from the last known good strategy and `general`, the strategies are tried in the
/// order in which they are listed, and of several with one name the first listed is tried.
pub proof fn the_others_keep_their_order(
    list: Seq<StrategyView>,
    lkg: Option<Seq<char>>,
    a: int,
    b: int,
    i: int,
    j: int,
)
    requires
        0 <= a < b < trial_order(list, lkg).len(),
        trial_order(list, lkg)[a].name != "general"@,
        trial_order(list, lkg)[b].name != "general"@,
        lkg matches Some(n) ==> trial_order(list, lkg)[a].name != n && trial_order(
            list,
            lkg,
        )[b].name != n,
        0 <= i < list.len() && list[i].name == trial_order(list, lkg)[a].name && (forall|k: int|
            0 <= k < i ==> (#[trigger] list[k]).name != list[i].name),
        0 <= j < list.len() && list[j].name == trial_order(list, lkg)[b].name && (forall|k: int|
            0 <= k < j ==> (#[trigger] list[k]).name != list[j].name),
    ensures
        i < j,
        trial_order(list, lkg)[a] == list[i],
        trial_order(list, lkg)[b] == list[j],
{
    let none = Seq::<StrategyView>::empty();
    let first = match lkg {
        Some(n) => with_named(none, list, n),
        None => none,
    };
    match lkg {
        Some(n) => {
            lemma_index_named(list, n);
            if named(list, n) {
                lemma_with_new(none, list[index_named(list, n)->0]);
            }
        },
        None => {},
    }
    lemma_index_named(list, "general"@);
    if named(list, "general"@) {
        lemma_with_new(first, list[index_named(list, "general"@)->0]);
    }
    let second = with_named(first, list, "general"@);
    lemma_with_all(second, list);
    lemma_with_all_keeps_order(second, list);
    let r = trial_order(list, lkg);
    assert forall|p: int| 0 <= p < second.len() implies (#[trigger] second[p]).name == "general"@
        || (lkg matches Some(n) && second[p].name == n) by {
        if p < first.len() {
            assert(second[p] == first[p]);
        }
    }
    if a < second.len() {
        assert(r[a] == second[a]);
    }
    if b < second.len() {
        assert(r[b] == second[b]);
    }
    the_first_of_a_name_is_found(list, r[a].name, i);
    the_first_of_a_name_is_found(list, r[b].name, j);
}

/// The place of a name in the order; the greatest number where it has none.
pub open spec fn place(ordered: Seq<StrategyView>, name: Seq<char>) -> int {
    match index_named(ordered, name) {
        Some(i) => i,
        None => usize::MAX as int,
    }
}

/// The place of a name in the order; the greatest number where it has none.
pub fn order_index(ordered: &[Strategy], name: &str) -> (r: usize)
    ensures
        r == place(views(ordered@), name@),
{
    match find_named(ordered, name) {
        Some(i) => i,
        None => usize::MAX,
    }
}

// ── Measuring ───────────────────────────────────────────────────────────────

/// What one target gave.
#[derive(Debug)]
pub struct Sample {
    /// Whether it answered.
    pub ok: bool,
    /// How long it took, in milliseconds.
    pub ms: u128,
    /// What the log says of it.
    pub why: String,
}

/// What one target gave, as a mathematical value: whether it answered, how long it took,
/// and what the log says of it.
pub type SampleView = (bool, u128, Seq<char>);

/// What targets gave, as mathematical values.
pub open spec fn samples_view(v: Seq<Sample>) -> Seq<SampleView> {
    Seq::new(v.len(), |i: int| (v[i].ok, v[i].ms, v[i].why@))
}

/// The order of times.
pub open spec fn at_most() -> spec_fn(u128, u128) -> bool {
    |a: u128, b: u128| a <= b
}

/// The middle one of the times in ascending order (the upper one of two); 0 without any.
pub open spec fn median_of(v: Seq<u128>) -> u128 {
    if v.len() == 0 {
        0
    } else {
        v.sort_by(at_most())[v.len() as int / 2]
    }
}

proof fn lemma_at_most()
    ensures
        total_ordering(at_most()),
{
}

/// The middle one of the times in ascending order.
pub fn median(v: &[u128]) -> (r: u128)
    ensures
        r == median_of(v@),
{
    if v.len() == 0 {
        return 0;
    }
    let n: usize = v.len();
    let mut s: Vec<u128> = Vec::new();
    let mut i: usize = 0;
    proof {
        assert(v@.take(0) =~= Seq::<u128>::empty());
    }
    while i < n
        invariant
            i <= n,
            n == v@.len(),
            s@.len() == i,
            sorted_by(s@, at_most()),
            s@.to_multiset() == v@.take(i as int).to_multiset(),
        decreases n - i,
    {
        let x: u128 = v[i];
        let mut j: usize = i;
        while j > 0 && s[j - 1] > x
            invariant
                j <= i,
                s@.len() == i,
                forall|k: int| j <= k < i ==> #[trigger] s@[k] > x,
            decreases j,
        {
            j -= 1;
        }
        let ghost before = s@;
        s.insert(j, x);
        proof {
            assert(s@ == before.insert(j as int, x));
            assert forall|a: int, b: int| 0 <= a < b < s@.len() implies #[trigger] at_most()(
                s@[a],
                s@[b],
            ) by {
                let pa = if a < j {
                    a
                } else {
                    a - 1
                };
                let pb = if b < j {
                    b
                } else {
                    b - 1
                };
                if a != j && b != j {
                    assert(at_most()(before[pa], before[pb]));
                } else if b == j {
                    assert(s@[a] == before[a]);
                    if a < j - 1 {
                        assert(at_most()(before[a], before[j - 1]));
                    }
                }
            }
            vstd::seq_lib::to_multiset_insert(before, j as int, x);
            vstd::seq_lib::to_multiset_build(v@.take(i as int), x);
            assert(v@.take(i + 1) =~= v@.take(i as int).push(x));
        }
        i += 1;
    }
    proof {
        assert(v@.take(n as int) =~= v@);
        lemma_at_most();
        v@.lemma_sort_by_ensures(at_most());
        vstd::seq_lib::lemma_sorted_unique(s@, v@.sort_by(at_most()), at_most());
    }
    s[n / 2]
}

/// Whether all targets answered.
pub open spec fn all_ok(gate: Seq<SampleView>) -> bool {
    forall|i: int| 0 <= i < gate.len() ==> (#[trigger] gate[i]).0
}

/// Whether all targets answered.
pub fn passes(gate: &[Sample]) -> (r: bool)
    ensures
        r == all_ok(samples_view(gate@)),
{
    let mut i: usize = 0;
    while i < gate.len()
        invariant
            i <= gate@.len(),
            forall|k: int| 0 <= k < i ==> (#[trigger] gate@[k]).ok,
        decreases gate@.len() - i,
    {
        if !gate[i].ok {
            assert(!samples_view(gate@)[i as int].0);
            return false;
        }
        i += 1;
    }
    true
}

/// The times of one target: that of the first round, and those of the two further rounds
/// in which it answered.
pub open spec fn times(first: SampleView, second: SampleView, third: SampleView) -> Seq<
    u128,
> {
    seq![first.1] + (if second.0 {
        seq![second.1]
    } else {
        Seq::empty()
    }) + (if third.0 {
        seq![third.1]
    } else {
        Seq::empty()
    })
}

/// The sum of the middle times of the first `n` targets.
pub open spec fn ping_sum(
    a: Seq<SampleView>,
    b: Seq<SampleView>,
    c: Seq<SampleView>,
    n: nat,
) -> nat
    decreases n,
{
    if n == 0 {
        0
    } else {
        ping_sum(a, b, c, (n - 1) as nat) + median_of(times(a[n - 1], b[n - 1], c[n - 1])) as nat
    }
}

proof fn lemma_ping_sum_grows(
    a: Seq<SampleView>,
    b: Seq<SampleView>,
    c: Seq<SampleView>,
    m: nat,
    n: nat,
)
    requires
        m <= n,
    ensures
        ping_sum(a, b, c, m) <= ping_sum(a, b, c, n),
    decreases n,
{
    if m < n {
        lemma_ping_sum_grows(a, b, c, m, (n - 1) as nat);
    }
}

/// The middle time of a target: its only time, the longer one of two, and of three the one
/// that lies between the other two. A further round without an answer does not count.
pub proof fn the_middle_time_lies_between(
    first: SampleView,
    second: SampleView,
    third: SampleView,
)
    ensures
        ({
            let m = median_of(times(first, second, third));
            let (a, b, c) = (first.1, second.1, third.1);
            &&& !second.0 && !third.0 ==> m == a
            &&& second.0 && !third.0 ==> (m == a || m == b) && m >= a && m >= b
            &&& !second.0 && third.0 ==> (m == a || m == c) && m >= a && m >= c
            &&& second.0 && third.0 ==> {
                &&& a <= b <= c || c <= b <= a ==> m == b
                &&& b <= a <= c || c <= a <= b ==> m == a
                &&& a <= c <= b || b <= c <= a ==> m == c
            }
        }),
{
    let (a, b, c) = (first.1, second.1, third.1);
    let v = times(first, second, third);
    if !second.0 && !third.0 {
        assert(v =~= seq![a]);
        lemma_sorted_times(v, v);
    } else if second.0 && third.0 {
        assert(v =~= seq![a, b, c]);
        lemma_three_times(a, b, c);
    } else {
        let d = if second.0 {
            b
        } else {
            c
        };
        assert(v =~= seq![a, d]);
        let t = if a <= d {
            seq![a, d]
        } else {
            seq![d, a]
        };
        lemma_multiset_of(seq![a, d]);
        lemma_multiset_of(t);
        assert(v.to_multiset() =~= t.to_multiset());
        lemma_sorted_times(v, t);
    }
}

proof fn lemma_sorted_times(v: Seq<u128>, t: Seq<u128>)
    requires
        v.len() > 0,
        v.len() == t.len(),
        sorted_by(t, at_most()),
        v.to_multiset() == t.to_multiset(),
    ensures
        median_of(v) == t[t.len() as int / 2],
{
    lemma_at_most();
    v.lemma_sort_by_ensures(at_most());
    vstd::seq_lib::lemma_sorted_unique(t, v.sort_by(at_most()), at_most());
}

proof fn lemma_multiset_of(v: Seq<u128>)
    requires
        2 <= v.len() <= 3,
    ensures
        v.len() == 2 ==> v.to_multiset() == vstd::multiset::Multiset::empty().insert(v[0]).insert(
            v[1],
        ),
        v.len() == 3 ==> v.to_multiset() == vstd::multiset::Multiset::empty().insert(v[0]).insert(
            v[1],
        ).insert(v[2]),
{
    let e = Seq::<u128>::empty();
    e.to_multiset_ensures();
    assert(e.to_multiset() =~= vstd::multiset::Multiset::empty());
    vstd::seq_lib::to_multiset_build(e, v[0]);
    vstd::seq_lib::to_multiset_build(e.push(v[0]), v[1]);
    if v.len() == 3 {
        vstd::seq_lib::to_multiset_build(e.push(v[0]).push(v[1]), v[2]);
        assert(v =~= e.push(v[0]).push(v[1]).push(v[2]));
    } else {
        assert(v =~= e.push(v[0]).push(v[1]));
    }
}

proof fn lemma_three_times(a: u128, b: u128, c: u128)
    ensures
        ({
            let m = median_of(seq![a, b, c]);
            &&& a <= b <= c || c <= b <= a ==> m == b
            &&& b <= a <= c || c <= a <= b ==> m == a
            &&& a <= c <= b || b <= c <= a ==> m == c
        }),
{
    let v = seq![a, b, c];
    let t = if a <= b <= c {
        seq![a, b, c]
    } else if c <= b <= a {
        seq![c, b, a]
    } else if b <= a <= c {
        seq![b, a, c]
    } else if c <= a <= b {
        seq![c, a, b]
    } else if a <= c <= b {
        seq![a, c, b]
    } else {
        seq![b, c, a]
    };
    lemma_multiset_of(v);
    lemma_multiset_of(t);
    assert(v.to_multiset() =~= t.to_multiset());
    lemma_sorted_times(v, t);
}

/// The sum of the middle times leaves no target out and counts none twice: that of one
/// target is its middle time, and that of two groups of targets is the sum of theirs.
pub proof fn pings_add_up(
    a: Seq<SampleView>,
    b: Seq<SampleView>,
    c: Seq<SampleView>,
    x: Seq<SampleView>,
    y: Seq<SampleView>,
    z: Seq<SampleView>,
)
    requires
        a.len() == b.len() == c.len(),
        x.len() == y.len() == z.len(),
    ensures
        a.len() == 1 ==> ping_sum(a, b, c, 1) == median_of(times(a[0], b[0], c[0])),
        ping_sum(a + x, b + y, c + z, (a.len() + x.len()) as nat) == ping_sum(a, b, c, a.len())
            + ping_sum(x, y, z, x.len()),
    decreases a.len() + x.len(),
{
    reveal_with_fuel(ping_sum, 2);
    lemma_ping_of_front(a, b, c, x, y, z, a.len());
    lemma_ping_of_back(a, b, c, x, y, z, x.len());
}

proof fn lemma_ping_of_front(
    a: Seq<SampleView>,
    b: Seq<SampleView>,
    c: Seq<SampleView>,
    x: Seq<SampleView>,
    y: Seq<SampleView>,
    z: Seq<SampleView>,
    n: nat,
)
    requires
        a.len() == b.len() == c.len(),
        n <= a.len(),
    ensures
        ping_sum(a + x, b + y, c + z, n) == ping_sum(a, b, c, n),
    decreases n,
{
    if n > 0 {
        lemma_ping_of_front(a, b, c, x, y, z, (n - 1) as nat);
    }
}

proof fn lemma_ping_of_back(
    a: Seq<SampleView>,
    b: Seq<SampleView>,
    c: Seq<SampleView>,
    x: Seq<SampleView>,
    y: Seq<SampleView>,
    z: Seq<SampleView>,
    n: nat,
)
    requires
        a.len() == b.len() == c.len(),
        x.len() == y.len() == z.len(),
        n <= x.len(),
    ensures
        ping_sum(a + x, b + y, c + z, (a.len() + n) as nat) == ping_sum(
            a + x,
            b + y,
            c + z,
            a.len(),
        ) + ping_sum(x, y, z, n),
    decreases n,
{
    if n > 0 {
        lemma_ping_of_back(a, b, c, x, y, z, (n - 1) as nat);
        let k = a.len() + n - 1;
        assert((a + x)[k] == x[n - 1]);
        assert((b + y)[k] == y[n - 1]);
        assert((c + z)[k] == z[n - 1]);
    }
}

/// The ping of a strategy whose targets have all answered: the sum over the targets of the
/// middle of three times, as far as 32 bits hold it. `second` and `third` are two further
/// rounds over the same targets.
pub fn ping_of(first: &[Sample], second: &[Sample], third: &[Sample]) -> (r: u32)
    requires
        first@.len() == second@.len() == third@.len(),
        ping_sum(
            samples_view(first@),
            samples_view(second@),
            samples_view(third@),
            first@.len(),
        ) <= u128::MAX,
    ensures
        r as nat == ping_sum(
            samples_view(first@),
            samples_view(second@),
            samples_view(third@),
            first@.len(),
        ) % 0x1_0000_0000,
{
    let ghost a = samples_view(first@);
    let ghost b = samples_view(second@);
    let ghost c = samples_view(third@);
    let mut sum: u128 = 0;
    let mut i: usize = 0;
    while i < first.len()
        invariant
            i <= first@.len(),
            first@.len() == second@.len() == third@.len(),
            a == samples_view(first@),
            b == samples_view(second@),
            c == samples_view(third@),
            ping_sum(a, b, c, first@.len()) <= u128::MAX,
            sum == ping_sum(a, b, c, i as nat),
        decreases first@.len() - i,
    {
        let mut v: Vec<u128> = Vec::new();
        v.push(first[i].ms);
        if second[i].ok {
            v.push(second[i].ms);
        }
        if third[i].ok {
            v.push(third[i].ms);
        }
        assert(v@ =~= times(a[i as int], b[i as int], c[i as int]));
        let m: u128 = median(&v);
        proof {
            lemma_ping_sum_grows(a, b, c, (i + 1) as nat, first@.len());
        }
        sum = sum + m;
        i += 1;
    }
    (sum % 0x1_0000_0000) as u32
}

/// What a trial gives: the ping where all targets answered, nothing else. The further
/// rounds count only where they did.
pub fn probe_strategy(first: &[Sample], second: &[Sample], third: &[Sample]) -> (r: Option<u32>)
    requires
        all_ok(samples_view(first@)) ==> first@.len() == second@.len() == third@.len(),
        all_ok(samples_view(first@)) ==> ping_sum(
            samples_view(first@),
            samples_view(second@),
            samples_view(third@),
            first@.len(),
        ) <= u128::MAX,
    ensures
        r is Some <==> all_ok(samples_view(first@)),
        r matches Some(p) ==> p as nat == ping_sum(
            samples_view(first@),
            samples_view(second@),
            samples_view(third@),
            first@.len(),
        ) % 0x1_0000_0000,
{
    if passes(first) {
        Some(ping_of(first, second, third))
    } else {
        None
    }
}

/// How many targets answered.
pub open spec fn answered(v: Seq<SampleView>) -> nat
    decreases v.len(),
{
    if v.len() == 0 {
        0
    } else {
        answered(v.drop_last()) + (if v.last().0 {
            1nat
        } else {
            0
        })
    }
}

/// How many targets answered.
pub fn count_answered(results: &[Sample]) -> (r: usize)
    ensures
        r == answered(samples_view(results@)),
        r <= results@.len(),
{
    let ghost v = samples_view(results@);
    let mut n: usize = 0;
    let mut i: usize = 0;
    assert(v.take(0) =~= Seq::<SampleView>::empty());
    while i < results.len()
        invariant
            i <= results@.len(),
            v == samples_view(results@),
            n == answered(v.take(i as int)),
            n <= i,
        decreases results@.len() - i,
    {
        proof {
            assert(v.take(i + 1).drop_last() =~= v.take(i as int));
            assert(v.take(i + 1).last() == v[i as int]);
        }
        if results[i].ok {
            n += 1;
        }
        i += 1;
    }
    assert(v.take(v.len() as int) =~= v);
    n
}

/// Whether a strategy stands the check: at least 70 of 100 targets answered, of at least
/// one.
pub open spec fn stands(v: Seq<SampleView>) -> bool {
    v.len() > 0 && answered(v) * 100 >= v.len() * 70
}

/// The targets that answered are counted one by one: one target counts once where it
/// answered and not at all where it did not, and two groups count together. All count
/// exactly where all answered.
pub proof fn answers_add_up(v: Seq<SampleView>, w: Seq<SampleView>)
    ensures
        v.len() == 1 ==> answered(v) == (if v[0].0 {
            1nat
        } else {
            0nat
        }),
        answered(v + w) == answered(v) + answered(w),
        answered(v) <= v.len(),
        answered(v) == v.len() <==> forall|i: int| 0 <= i < v.len() ==> (#[trigger] v[i]).0,
        all_ok(v) <==> answered(v) == v.len(),
        all_ok(v + w) <==> all_ok(v) && all_ok(w),
    decreases v.len() + w.len(),
{
    reveal_with_fuel(answered, 2);
    assert forall|i: int| 0 <= i < v.len() implies #[trigger] v[i] == (v + w)[i] by {}
    assert forall|i: int| 0 <= i < w.len() implies #[trigger] w[i] == (v + w)[v.len() + i] by {}
    if w.len() > 0 {
        answers_add_up(v, w.drop_last());
        assert((v + w).drop_last() =~= v + w.drop_last());
    } else {
        assert(v + w =~= v);
        if v.len() > 0 {
            let t = v.drop_last();
            answers_add_up(t, w);
            assert forall|i: int| 0 <= i < t.len() implies t[i] == #[trigger] v[i] by {}
            if answered(v) == v.len() {
                assert forall|i: int| 0 <= i < v.len() implies (#[trigger] v[i]).0 by {
                    if i < t.len() {
                        assert(t[i].0);
                    }
                }
            }
        }
    }
}

/// The check forgives three targets in ten and no more, and it never passes without a
/// target. One more target that answers does no harm, and one more that does not does no
/// good.
pub proof fn three_targets_in_ten_may_fail(v: Seq<SampleView>, t: SampleView)
    ensures
        stands(v) <==> v.len() > 0 && 10 * (v.len() - answered(v)) <= 3 * v.len(),
        stands(v) && t.0 ==> stands(v.push(t)),
        v.len() > 0 && !stands(v) && !t.0 ==> !stands(v.push(t)),
        (forall|i: int| 0 <= i < v.len() ==> (#[trigger] v[i]).0) && v.len() > 0 ==> stands(v),
        (forall|i: int| 0 <= i < v.len() ==> !(#[trigger] v[i]).0) ==> !stands(v),
{
    assert(v.push(t).drop_last() =~= v);
    answers_add_up(v, v);
    if forall|i: int| 0 <= i < v.len() ==> !(#[trigger] v[i]).0 {
        lemma_none_answered(v);
    }
}

proof fn lemma_none_answered(v: Seq<SampleView>)
    requires
        forall|i: int| 0 <= i < v.len() ==> !(#[trigger] v[i]).0,
    ensures
        answered(v) == 0,
    decreases v.len(),
{
    if v.len() > 0 {
        let t = v.drop_last();
        assert forall|i: int| 0 <= i < t.len() implies !(#[trigger] t[i]).0 by {
            assert(t[i] == v[i]);
        }
        lemma_none_answered(t);
    }
}

/// Whether the winner passes the check: at least 70 of 100 targets answered, of at least
/// one.
pub fn verify_winner(results: &[Sample]) -> (r: bool)
    requires
        answered(samples_view(results@)) * 100 <= usize::MAX,
        results@.len() * 70 <= usize::MAX,
    ensures
        r == (results@.len() > 0 && answered(samples_view(results@)) * 100 >= results@.len() * 70),
        r == stands(samples_view(results@)),
{
    let ok: usize = count_answered(results);
    results.len() > 0 && ok * 100 >= results.len() * 70
}

/// A line of the log on one target of a trial.
pub fn gate_line(strategy: &str, target: &str, s: &Sample) -> (r: String)
    ensures
        r@ == "["@ + strategy@ + "] "@ + target@ + " → "@ + (if s.ok {
            "OK"@
        } else {
            "FAIL"@
        }) + " "@ + decimal(s.ms as nat) + "ms"@ + (if s.ok {
            Seq::empty()
        } else {
            " ("@ + s.why@ + ")"@
        }),
{
    let mut line = cat3("[", strategy, "] ");
    line.append(target);
    line.append(" → ");
    if s.ok {
        line.append("OK");
    } else {
        line.append("FAIL");
    }
    line.append(" ");
    line.append(decimal_wide(s.ms).as_str());
    line.append("ms");
    if !s.ok {
        line.append(cat3(" (", s.why.as_str(), ")").as_str());
    } else {
        assert(line@ + Seq::<char>::empty() =~= line@);
    }
    line
}

/// A line of the log on an engine that did not start for a trial.
pub fn launch_failure_line(strategy: &str, error: &str) -> (r: String)
    ensures
        r@ == "["@ + strategy@ + "] не запустился движок: "@ + error@,
{
    let mut line = cat3("[", strategy, "] не запустился движок: ");
    line.append(error);
    line
}

/// A line of the log on an engine that ended before a trial, with what it said.
pub fn early_exit_line(strategy: &str, code: i32, output: &str) -> (r: String)
    ensures
        r@ == "["@ + strategy@ + "] движок сразу вышел (код "@ + signed(code as int) + ")"@ + (
        if output@.len() == 0 {
            Seq::empty()
        } else {
            " · "@ + output@
        }),
{
    let mut line = cat3("[", strategy, "] движок сразу вышел (код ");
    line.append(signed_text(code).as_str());
    line.append(")");
    if output.is_empty() {
        assert(line@ + Seq::<char>::empty() =~= line@);
    } else {
        line.append(cat(" · ", output).as_str());
    }
    line
}

/// A line of the log on the check of a winner.
pub fn verify_line(strategy: &str, results: &[Sample]) -> (r: String)
    ensures
        r@ == "верификация "@ + strategy@ + ": "@ + decimal(answered(samples_view(results@)))
            + "/"@ + decimal(results@.len()) + " целей доступно"@,
{
    let mut line = cat3("верификация ", strategy, ": ");
    line.append(decimal_text(count_answered(results) as u64).as_str());
    line.append("/");
    line.append(decimal_text(results.len() as u64).as_str());
    line.append(" целей доступно");
    line
}

// ── The winner ──────────────────────────────────────────────────────────────

/// A strategy that passed its trial: its name and its ping.
#[derive(Debug)]
pub struct Candidate {
    pub name: String,
    pub ping: u32,
}

/// Candidates as mathematical values.
pub open spec fn candidates_view(v: Seq<Candidate>) -> Seq<(Seq<char>, u32)> {
    Seq::new(v.len(), |i: int| (v[i].name@, v[i].ping))
}

/// The least ping.
pub open spec fn least(c: Seq<(Seq<char>, u32)>) -> u32
    decreases c.len(),
{
    if c.len() <= 1 {
        c[0].1
    } else if c.last().1 < least(c.drop_last()) {
        c.last().1
    } else {
        least(c.drop_last())
    }
}

/// How much slower than the fastest a candidate may be to win, in milliseconds.
pub const MARGIN: u32 = 15;

/// Whether a candidate is fast enough to win.
pub open spec fn eligible(c: Seq<(Seq<char>, u32)>, i: int) -> bool {
    c[i].1 <= least(c) + MARGIN
}

/// Whether candidate `i` goes before candidate `j`: it stands earlier in the order; with
/// equal places it is faster; with equal pings it was tried earlier.
pub open spec fn goes_before(
    c: Seq<(Seq<char>, u32)>,
    ordered: Seq<StrategyView>,
    i: int,
    j: int,
) -> bool {
    let a = place(ordered, c[i].0);
    let b = place(ordered, c[j].0);
    a < b || (a == b && (c[i].1 < c[j].1 || (c[i].1 == c[j].1 && i < j)))
}

/// Whether candidate `k` wins: among those that are fast enough it goes before all others.
pub open spec fn wins(c: Seq<(Seq<char>, u32)>, ordered: Seq<StrategyView>, k: int) -> bool {
    &&& 0 <= k < c.len()
    &&& eligible(c, k)
    &&& forall|j: int|
        0 <= j < c.len() && j != k && #[trigger] eligible(c, j) ==> goes_before(c, ordered, k, j)
}

proof fn lemma_least(c: Seq<(Seq<char>, u32)>)
    requires
        c.len() > 0,
    ensures
        forall|i: int| 0 <= i < c.len() ==> least(c) <= (#[trigger] c[i]).1,
        exists|i: int| 0 <= i < c.len() && (#[trigger] c[i]).1 == least(c),
    decreases c.len(),
{
    if c.len() > 1 {
        let t = c.drop_last();
        lemma_least(t);
        assert forall|i: int| 0 <= i < c.len() implies least(c) <= (#[trigger] c[i]).1 by {
            if i < t.len() {
                assert(t[i] == c[i]);
            }
        }
        let k = choose|k: int| 0 <= k < t.len() && (#[trigger] t[k]).1 == least(t);
        assert(c[k].1 == least(t));
        assert(c[c.len() - 1].1 == c.last().1);
    } else {
        assert(c[0].1 == least(c));
    }
}

/// The winner: the candidate with the least ping, or the one that stands earliest in the
/// order among those that are hardly slower. Nothing without candidates.
pub fn pick_winner(candidates: &[Candidate], ordered: &[Strategy]) -> (r: Option<usize>)
    requires
        candidates@.len() > 0 ==> least(candidates_view(candidates@)) + MARGIN <= u32::MAX,
    ensures
        match r {
            Some(k) => wins(candidates_view(candidates@), views(ordered@), k as int),
            None => candidates@.len() == 0,
        },
{
    let ghost c = candidates_view(candidates@);
    let ghost o = views(ordered@);
    if candidates.len() == 0 {
        return None;
    }
    let mut best: u32 = candidates[0].ping;
    let mut i: usize = 1;
    assert(c.take(1).len() == 1 && c.take(1)[0] == c[0]);
    while i < candidates.len()
        invariant
            1 <= i <= candidates@.len(),
            c == candidates_view(candidates@),
            best == least(c.take(i as int)),
        decreases candidates@.len() - i,
    {
        proof {
            assert(c.take(i + 1).drop_last() =~= c.take(i as int));
            assert(c.take(i + 1).last() == c[i as int]);
        }
        if candidates[i].ping < best {
            best = candidates[i].ping;
        }
        i += 1;
    }
    proof {
        assert(c.take(c.len() as int) =~= c);
        lemma_least(c);
    }
    let limit: u32 = best + MARGIN;
    let mut won: Option<usize> = None;
    let mut at: usize = 0;
    let mut k: usize = 0;
    while k < candidates.len()
        invariant
            k <= candidates@.len(),
            c == candidates_view(candidates@),
            o == views(ordered@),
            limit == least(c) + MARGIN,
            won matches Some(w) ==> w < k && eligible(c, w as int) && at == place(o, c[w as int].0),
            won is None ==> forall|j: int| 0 <= j < k ==> !(#[trigger] eligible(c, j)),
            won matches Some(w) ==> forall|j: int|
                0 <= j < k && j != w && #[trigger] eligible(c, j) ==> goes_before(c, o, w as int, j),
        decreases candidates@.len() - k,
    {
        if candidates[k].ping <= limit {
            let here: usize = order_index(ordered, candidates[k].name.as_str());
            let better = match won {
                None => true,
                Some(w) => here < at || (here == at && candidates[k].ping < candidates[w].ping),
            };
            if better {
                won = Some(k);
                at = here;
            }
        }
        k += 1;
    }
    proof {
        let m = choose|m: int| 0 <= m < c.len() && (#[trigger] c[m]).1 == least(c);
        assert(eligible(c, m));
    }
    won
}

/// There is one winner at most; it is at most 15 ms slower than the fastest candidate, and
/// no other such candidate stands earlier in the order.
pub proof fn winner_is_unique_and_fast(
    c: Seq<(Seq<char>, u32)>,
    ordered: Seq<StrategyView>,
    k: int,
    m: int,
)
    requires
        wins(c, ordered, k),
        wins(c, ordered, m),
    ensures
        k == m,
        forall|j: int| 0 <= j < c.len() ==> c[k].1 <= (#[trigger] c[j]).1 + 15,
        forall|j: int|
            0 <= j < c.len() && (#[trigger] c[j]).1 <= least(c) + 15 ==> place(ordered, c[k].0)
                <= place(ordered, c[j].0),
{
    lemma_least(c);
    if k != m {
        assert(eligible(c, m) && eligible(c, k));
        assert(goes_before(c, ordered, k, m) && goes_before(c, ordered, m, k));
    }
    assert forall|j: int| 0 <= j < c.len() && (#[trigger] c[j]).1 <= least(c) + 15 implies place(
        ordered,
        c[k].0,
    ) <= place(ordered, c[j].0) by {
        assert(eligible(c, j));
    }
}

// ── The course of a selection ───────────────────────────────────────────────

/// What is reported of a selection while it runs.
#[derive(Debug)]
pub struct AutoProgress {
    pub idx: usize,
    pub total: usize,
    pub strategy: String,
    /// probe, lkg, verify, installed, none or canceled.
    pub stage: String,
    /// Empty, ok or fail.
    pub result: String,
    pub ping: u32,
}

/// A report as a mathematical value.
#[verifier::ext_equal]
pub struct ProgressView {
    pub idx: usize,
    pub total: usize,
    pub strategy: Seq<char>,
    pub stage: Seq<char>,
    pub result: Seq<char>,
    pub ping: u32,
}

impl View for AutoProgress {
    type V = ProgressView;

    open spec fn view(&self) -> ProgressView {
        ProgressView {
            idx: self.idx,
            total: self.total,
            strategy: self.strategy@,
            stage: self.stage@,
            result: self.result@,
            ping: self.ping,
        }
    }
}

/// Reports as mathematical values.
pub open spec fn reports(v: Seq<AutoProgress>) -> Seq<ProgressView> {
    Seq::new(v.len(), |i: int| v[i]@)
}

/// A report.
pub open spec fn report(
    idx: int,
    total: nat,
    strategy: Seq<char>,
    stage: Seq<char>,
    result: Seq<char>,
    ping: u32,
) -> ProgressView {
    ProgressView { idx: idx as usize, total: total as usize, strategy, stage, result, ping }
}

fn make_report(
    idx: usize,
    total: usize,
    strategy: &str,
    stage: &str,
    result: &str,
    ping: u32,
) -> (r: AutoProgress)
    ensures
        r@ == report(idx as int, total as nat, strategy@, stage@, result@, ping),
{
    AutoProgress {
        idx,
        total,
        strategy: strategy.to_owned(),
        stage: stage.to_owned(),
        result: result.to_owned(),
        ping,
    }
}

/// What is to be done next.
#[derive(Clone, Copy, Debug, PartialEq, Eq, Structural)]
pub enum Phase {
    /// Prepare the machine for the trials.
    Prepare,
    /// Try this strategy, the last known good one, before all others.
    Quick(usize),
    /// Look whether the selection was canceled, before this strategy is tried.
    Ask(usize),
    /// Try this strategy.
    Trial(usize),
    /// Check this strategy, the winner, against the full list of targets.
    Verify(usize),
    /// Install this strategy.
    Install(usize),
    /// It was canceled: stop every engine, take all rules down, and end with this code.
    Canceled(i32),
    /// End with this code.
    Exit(i32),
}

/// What has happened.
#[derive(Clone, Copy, Debug, PartialEq, Eq, Structural)]
pub enum Event {
    /// The machine is prepared.
    Prepared,
    /// Whether the selection was canceled.
    Cancel(bool),
    /// The trial is over: the ping, if the strategy passed.
    Tried(Option<u32>),
    /// Whether the winner passed the check.
    Verified(bool),
    /// Whether the strategy could be installed.
    Installed(bool),
}

/// A running selection.
#[derive(Debug)]
pub struct Selection {
    game_filter: bool,
    /// The last known good strategy.
    lkg: Option<String>,
    /// The strategies in the order of their trials.
    ordered: Vec<Strategy>,
    /// Those that passed.
    found: Vec<Candidate>,
    phase: Phase,
}

/// A running selection as a mathematical value.
#[verifier::ext_equal]
pub struct SelectionView {
    pub game_filter: bool,
    pub lkg: Option<Seq<char>>,
    pub ordered: Seq<StrategyView>,
    pub found: Seq<(Seq<char>, u32)>,
    pub phase: Phase,
}

impl View for Selection {
    type V = SelectionView;

    closed spec fn view(&self) -> SelectionView {
        SelectionView {
            game_filter: self.game_filter,
            lkg: opt_text(self.lkg),
            ordered: views(self.ordered@),
            found: candidates_view(self.found@),
            phase: self.phase,
        }
    }
}

/// What holds of every selection: there is something to try, the strategy at hand is one
/// of those to try, and so is every candidate.
pub open spec fn sound(s: SelectionView) -> bool {
    &&& 0 < s.ordered.len() <= usize::MAX
    &&& match s.phase {
        Phase::Quick(i) => i < s.ordered.len(),
        Phase::Ask(i) => i < s.ordered.len(),
        Phase::Trial(i) => i < s.ordered.len(),
        Phase::Verify(i) => i < s.ordered.len(),
        Phase::Install(i) => i < s.ordered.len(),
        _ => true,
    }
    &&& forall|k: int|
        0 <= k < s.found.len() ==> index_named(s.ordered, (#[trigger] s.found[k]).0) is Some
}

/// Whether an event is what the phase waits for.
pub open spec fn expected(p: Phase, e: Event) -> bool {
    match (p, e) {
        (Phase::Prepare, Event::Prepared) => true,
        (Phase::Quick(_), Event::Tried(_)) => true,
        (Phase::Ask(_), Event::Cancel(_)) => true,
        (Phase::Trial(_), Event::Tried(_)) => true,
        (Phase::Verify(_), Event::Verified(_)) => true,
        (Phase::Install(_), Event::Installed(_)) => true,
        _ => false,
    }
}

/// The candidates after an event.
pub open spec fn found_after(s: SelectionView, e: Event) -> Seq<(Seq<char>, u32)> {
    match (s.phase, e) {
        (Phase::Trial(i), Event::Tried(Some(ping))) => s.found.push(
            (s.ordered[i as int].name, ping),
        ),
        _ => s.found,
    }
}

/// Whether the event ends the trials.
pub open spec fn ends_trials(s: SelectionView, e: Event) -> bool {
    s.phase matches Phase::Trial(i) && e is Tried && i + 1 >= s.ordered.len()
}

/// The first candidate that wins.
pub open spec fn winner(s: SelectionView, found: Seq<(Seq<char>, u32)>) -> int {
    choose|k: int| wins(found, s.ordered, k)
}

/// The phase after an event.
pub open spec fn phase_after(s: SelectionView, e: Event) -> Phase {
    match (s.phase, e) {
        (Phase::Prepare, Event::Prepared) => match s.lkg {
            Some(n) => match index_named(s.ordered, n) {
                Some(i) => Phase::Quick(i as usize),
                None => Phase::Ask(0),
            },
            None => Phase::Ask(0),
        },
        (Phase::Quick(i), Event::Tried(p)) => if p is Some {
            Phase::Install(i)
        } else {
            Phase::Ask(0)
        },
        (Phase::Ask(i), Event::Cancel(c)) => if c {
            Phase::Canceled(2)
        } else {
            Phase::Trial(i)
        },
        (Phase::Trial(i), Event::Tried(_)) => {
            let found = found_after(s, e);
            if i + 1 < s.ordered.len() {
                Phase::Ask((i + 1) as usize)
            } else if found.len() == 0 {
                Phase::Exit(3)
            } else {
                Phase::Verify(index_named(s.ordered, found[winner(s, found)].0)->0 as usize)
            }
        },
        (Phase::Verify(i), Event::Verified(ok)) => if ok {
            Phase::Install(i)
        } else {
            Phase::Exit(3)
        },
        (Phase::Install(_), Event::Installed(ok)) => Phase::Exit(
            if ok {
                0
            } else {
                1
            },
        ),
        _ => s.phase,
    }
}

/// The report on reaching a phase.
pub open spec fn arrival(s: SelectionView, p: Phase) -> Seq<ProgressView> {
    let n = s.ordered.len();
    match p {
        Phase::Quick(i) => seq![
            report(1, n, s.ordered[i as int].name, "lkg"@, ""@, 0),
        ],
        Phase::Trial(i) => seq![
            report(i + 1, n, s.ordered[i as int].name, "probe"@, ""@, 0),
        ],
        Phase::Verify(i) => seq![
            report(0, 0, s.ordered[i as int].name, "verify"@, ""@, 0),
        ],
        Phase::Canceled(_) => seq![report(0, 0, ""@, "canceled"@, ""@, 0)],
        Phase::Exit(3) => seq![report(0, 0, ""@, "none"@, ""@, 0)],
        _ => Seq::empty(),
    }
}

/// The report on the event itself.
pub open spec fn outcome_report(s: SelectionView, e: Event) -> Seq<ProgressView> {
    let n = s.ordered.len();
    match (s.phase, e) {
        (Phase::Trial(i), Event::Tried(p)) => match p {
            Some(ping) => seq![
                report(i + 1, n, s.ordered[i as int].name, "probe"@, "ok"@, ping),
            ],
            None => seq![report(i + 1, n, s.ordered[i as int].name, "probe"@, "fail"@, 0)],
        },
        (Phase::Install(i), Event::Installed(true)) => seq![
            report(0, 0, s.ordered[i as int].name, "installed"@, ""@, 0),
        ],
        _ => Seq::empty(),
    }
}

/// The selection after an event.
pub open spec fn after(s: SelectionView, e: Event) -> SelectionView {
    SelectionView { found: found_after(s, e), phase: phase_after(s, e), ..s }
}

impl Selection {
    /// Begins a selection, or says why there is none: without a core and without strategies.
    /// `args` are the switch of the game filter and the last known good strategy.
    pub fn begin(args: &[String], scan: &CoreScan) -> (r: Result<Selection, String>)
        ensures
            scan@.core_dir is None ==> (r matches Err(e) && e@ == "ядро не найдено"@),
            scan@.core_dir is Some && scan@.strategies.len() == 0 ==> (r matches Err(e) && e@
                == "нет стратегий"@),
            scan@.core_dir is Some && scan@.strategies.len() > 0 ==> ({
                let lkg = if args@.len() > 1 && args@[1]@.len() > 0 {
                    Some(args@[1]@)
                } else {
                    None
                };
                &&& r matches Ok(s)
                &&& sound(s@)
                &&& s@ == (SelectionView {
                    game_filter: args@.len() > 0 && args@[0]@ == "1"@,
                    lkg,
                    ordered: trial_order(scan@.strategies, lkg),
                    found: Seq::empty(),
                    phase: Phase::Prepare,
                })
            }),
    {
        let core = match &scan.core_dir {
            Some(_) => true,
            None => false,
        };
        if !core {
            return Err("ядро не найдено".to_owned());
        }
        if scan.strategies.len() == 0 {
            return Err("нет стратегий".to_owned());
        }
        let game_filter = args.len() > 0 && same(args[0].as_str(), "1");
        let lkg = if args.len() > 1 && !args[1].as_str().is_empty() {
            Some(args[1].clone())
        } else {
            None
        };
        let name = match &lkg {
            Some(n) => Some(n.as_str()),
            None => None,
        };
        let ordered = order_strategies(&scan.strategies, name);
        let found: Vec<Candidate> = Vec::new();
        let s = Selection { game_filter, lkg, ordered, found, phase: Phase::Prepare };
        proof {
            let list = scan@.strategies;
            assert(s@.found =~= Seq::<(Seq<char>, u32)>::empty());
            trials_are_complete(list, s@.lkg);
            assert(named(s@.ordered, list[0].name));
            assert(s.ordered@.len() == s@.ordered.len());
        }
        let n: usize = s.ordered.len();
        assert(n == s@.ordered.len());
        Ok(s)
    }

    /// Whether the strategies are tried with the game filter.
    pub fn game_filter(&self) -> (r: bool)
        ensures
            r == self@.game_filter,
    {
        self.game_filter
    }

    /// The last known good strategy.
    pub fn lkg(&self) -> (r: Option<String>)
        ensures
            opt_text(r) == self@.lkg,
    {
        copy_opt(&self.lkg)
    }

    /// The strategies in the order of their trials.
    pub fn ordered(&self) -> (r: &[Strategy])
        ensures
            views(r@) == self@.ordered,
    {
        self.ordered.as_slice()
    }

    /// The strategies that have passed so far.
    pub fn found(&self) -> (r: &[Candidate])
        ensures
            candidates_view(r@) == self@.found,
    {
        self.found.as_slice()
    }

    /// What is to be done next.
    pub fn phase(&self) -> (r: Phase)
        ensures
            r == self@.phase,
    {
        self.phase
    }

    /// Takes an event in, and gives the reports that are due.
    pub fn step(&mut self, e: Event) -> (r: Vec<AutoProgress>)
        requires
            sound(old(self)@),
            expected(old(self)@.phase, e),
            ends_trials(old(self)@, e) && found_after(old(self)@, e).len() > 0 ==> least(
                found_after(old(self)@, e),
            ) + MARGIN <= u32::MAX,
        ensures
            sound(final(self)@),
            final(self)@ == after(old(self)@, e),
            reports(r@) == outcome_report(old(self)@, e) + arrival(old(self)@, final(self)@.phase),
    {
        let ghost s = self@;
        let n: usize = self.ordered.len();
        let mut out: Vec<AutoProgress> = Vec::new();
        assert(s.ordered.len() == n);
        let next = match (self.phase, e) {
            (Phase::Prepare, Event::Prepared) => match &self.lkg {
                Some(name) => match find_named(&self.ordered, name.as_str()) {
                    Some(i) => Phase::Quick(i),
                    None => Phase::Ask(0),
                },
                None => Phase::Ask(0),
            },
            (Phase::Quick(i), Event::Tried(p)) => {
                if p.is_some() {
                    Phase::Install(i)
                } else {
                    Phase::Ask(0)
                }
            },
            (Phase::Ask(i), Event::Cancel(c)) => {
                if c {
                    Phase::Canceled(2)
                } else {
                    Phase::Trial(i)
                }
            },
            (Phase::Trial(i), Event::Tried(p)) => {
                let name = self.ordered[i].name.clone();
                assert(s.ordered[i as int].name == name@);
                match p {
                    Some(ping) => {
                        out.push(make_report(i + 1, n, name.as_str(), "probe", "ok", ping));
                        self.found.push(Candidate { name, ping });
                        assert(candidates_view(self.found@) =~= s.found.push((name@, ping)));
                        proof {
                            lemma_index_named(s.ordered, name@);
                            assert(named(s.ordered, name@));
                        }
                    },
                    None => {
                        out.push(make_report(i + 1, n, name.as_str(), "probe", "fail", 0));
                    },
                }
                assert(self@.found == found_after(s, e));
                if i + 1 < n {
                    Phase::Ask(i + 1)
                } else {
                    self.finish()
                }
            },
            (Phase::Verify(i), Event::Verified(ok)) => {
                if ok {
                    Phase::Install(i)
                } else {
                    Phase::Exit(3)
                }
            },
            (Phase::Install(i), Event::Installed(ok)) => {
                assert(s.ordered[i as int].name == self.ordered@[i as int].name@);
                if ok {
                    out.push(make_report(0, 0, self.ordered[i].name.as_str(), "installed", "", 0));
                    Phase::Exit(0)
                } else {
                    Phase::Exit(1)
                }
            },
            (p, _) => p,
        };
        assert(reports(out@) =~= outcome_report(s, e));
        self.phase = next;
        assert(self@ =~= after(s, e));
        proof {
            lemma_winner_is_sound(s, e);
        }
        let ghost first = reports(out@);
        let mut more = self.announce();
        let ghost second = reports(more@);
        out.append(&mut more);
        assert(reports(out@) =~= first + second);
        out
    }

    /// What follows the last trial.
    fn finish(&self) -> (r: Phase)
        requires
            self@.found.len() > 0 ==> least(self@.found) + MARGIN <= u32::MAX,
            forall|k: int|
                0 <= k < self@.found.len() ==> index_named(
                    self@.ordered,
                    (#[trigger] self@.found[k]).0,
                ) is Some,
        ensures
            r == (if self@.found.len() == 0 {
                Phase::Exit(3)
            } else {
                Phase::Verify(
                    index_named(self@.ordered, self@.found[winner(self@, self@.found)].0)->0
                        as usize,
                )
            }),
            self@.found.len() > 0 ==> exists|k: int| wins(self@.found, self@.ordered, k),
    {
        match pick_winner(&self.found, &self.ordered) {
            None => Phase::Exit(3),
            Some(k) => {
                proof {
                    let w = winner(self@, self@.found);
                    assert(wins(self@.found, self@.ordered, k as int));
                    winner_is_unique_and_fast(self@.found, self@.ordered, k as int, w);
                    assert(self@.found[k as int].0 == self.found@[k as int].name@);
                }
                match find_named(&self.ordered, self.found[k].name.as_str()) {
                    Some(i) => Phase::Verify(i),
                    None => {
                        assert(index_named(self@.ordered, self@.found[k as int].0) is Some);
                        Phase::Exit(3)
                    },
                }
            },
        }
    }

    /// The report on the phase that is reached.
    fn announce(&self) -> (r: Vec<AutoProgress>)
        requires
            sound(self@),
        ensures
            reports(r@) == arrival(self@, self.phase),
    {
        let n: usize = self.ordered.len();
        let mut v: Vec<AutoProgress> = Vec::new();
        match self.phase {
            Phase::Quick(i) => {
                v.push(make_report(1, n, self.ordered[i].name.as_str(), "lkg", "", 0));
            },
            Phase::Trial(i) => {
                v.push(make_report(i + 1, n, self.ordered[i].name.as_str(), "probe", "", 0));
            },
            Phase::Verify(i) => {
                v.push(make_report(0, 0, self.ordered[i].name.as_str(), "verify", "", 0));
            },
            Phase::Canceled(_) => {
                v.push(make_report(0, 0, "", "canceled", "", 0));
            },
            Phase::Exit(code) => {
                if code == 3 {
                    v.push(make_report(0, 0, "", "none", "", 0));
                }
            },
            _ => {},
        }
        assert(reports(v@) =~= arrival(self@, self.phase));
        v
    }
}

proof fn lemma_winner_is_sound(s: SelectionView, e: Event)
    requires
        sound(s),
        expected(s.phase, e),
        ends_trials(s, e) && found_after(s, e).len() > 0 ==> exists|k: int|
            wins(found_after(s, e), s.ordered, k),
    ensures
        sound(after(s, e)),
{
    let t = after(s, e);
    match (s.phase, e) {
        (Phase::Prepare, Event::Prepared) => match s.lkg {
            Some(n) => {
                lemma_index_named(s.ordered, n);
            },
            None => {},
        },
        (Phase::Trial(i), Event::Tried(p)) => {
            lemma_index_named(s.ordered, s.ordered[i as int].name);
            assert(named(s.ordered, s.ordered[i as int].name));
            assert forall|k: int| 0 <= k < t.found.len() implies index_named(
                t.ordered,
                (#[trigger] t.found[k]).0,
            ) is Some by {
                if k < s.found.len() {
                    assert(t.found[k] == s.found[k]);
                }
            }
            if ends_trials(s, e) && t.found.len() > 0 {
                let w = winner(s, t.found);
                assert(wins(t.found, s.ordered, w));
                lemma_index_named(s.ordered, t.found[w].0);
            }
        },
        _ => {},
    }
}

/// The strategy that is checked at the end is the winner among those that passed their
/// trials.
pub proof fn the_checked_one_has_won(s: SelectionView, e: Event, i: usize)
    requires
        sound(s),
        expected(s.phase, e),
        phase_after(s, e) == Phase::Verify(i),
        exists|k: int| wins(found_after(s, e), s.ordered, k),
    ensures
        exists|k: int| #[trigger]
            wins(found_after(s, e), s.ordered, k) && found_after(s, e)[k].0
                == s.ordered[i as int].name,
{
    let found = found_after(s, e);
    let w = winner(s, found);
    assert(wins(found, s.ordered, w));
    match (s.phase, e) {
        (Phase::Trial(j), Event::Tried(p)) => {
            lemma_index_named(s.ordered, s.ordered[j as int].name);
            assert(named(s.ordered, s.ordered[j as int].name));
            assert(index_named(s.ordered, found[w].0) is Some) by {
                if w < s.found.len() {
                    assert(found[w] == s.found[w]);
                }
            }
            lemma_index_named(s.ordered, found[w].0);
        },
        _ => {},
    }
}

// ── What holds of every selection ───────────────────────────────────────────

/// How much a selection has still to do.
pub open spec fn left_to_do(s: SelectionView) -> int {
    let n = s.ordered.len() as int;
    match s.phase {
        Phase::Prepare => 2 * n + 5,
        Phase::Quick(_) => 2 * n + 4,
        Phase::Ask(i) => 2 * (n - i) + 3,
        Phase::Trial(i) => 2 * (n - i) + 2,
        Phase::Verify(_) => 2,
        Phase::Install(_) => 1,
        Phase::Canceled(_) => 0,
        Phase::Exit(_) => 0,
    }
}

/// Every selection ends: each event leaves less to do.
pub proof fn selection_ends(s: SelectionView, e: Event)
    requires
        sound(s),
        expected(s.phase, e),
    ensures
        0 <= left_to_do(after(s, e)) < left_to_do(s),
{
}

/// Only a strategy that has just proved itself is installed: the last known good one after
/// it passed its trial, or the winner after it passed the check. A selection that was
/// canceled, or in which nothing passed, installs nothing.
pub proof fn only_the_proven_is_installed(s: SelectionView, e: Event, i: usize)
    requires
        sound(s),
        expected(s.phase, e),
        phase_after(s, e) == Phase::Install(i),
    ensures
        (s.phase == Phase::Quick(i) && (e matches Event::Tried(p) && p is Some)) || (s.phase
            == Phase::Verify(i) && e == Event::Verified(true)),
{
}

/// A cancellation is seen before every trial of the sweep, and it ends the selection at
/// once with its own code.
pub proof fn cancellation_counts_before_every_trial(s: SelectionView, e: Event, i: usize)
    requires
        sound(s),
        expected(s.phase, e),
        phase_after(s, e) == Phase::Trial(i),
    ensures
        s.phase == Phase::Ask(i) && e == Event::Cancel(false),
        phase_after(s, Event::Cancel(true)) == Phase::Canceled(2),
{
}

proof fn lemma_earliest(
    c: Seq<(Seq<char>, u32)>,
    ordered: Seq<StrategyView>,
    n: int,
    m: int,
) -> (k: int)
    requires
        0 <= m < n <= c.len(),
        eligible(c, m),
    ensures
        0 <= k < n,
        eligible(c, k),
        forall|j: int|
            0 <= j < n && j != k && #[trigger] eligible(c, j) ==> goes_before(c, ordered, k, j),
    decreases n,
{
    let last = n - 1;
    if exists|j: int| 0 <= j < last && #[trigger] eligible(c, j) {
        let j = choose|j: int| 0 <= j < last && #[trigger] eligible(c, j);
        let k = lemma_earliest(c, ordered, last, j);
        if eligible(c, last) && goes_before(c, ordered, last, k) {
            last
        } else {
            k
        }
    } else {
        m
    }
}

/// Wherever something passed there is a winner.
pub proof fn there_is_a_winner(c: Seq<(Seq<char>, u32)>, ordered: Seq<StrategyView>)
    requires
        c.len() > 0,
    ensures
        exists|k: int| wins(c, ordered, k),
{
    lemma_least(c);
    let m = choose|m: int| 0 <= m < c.len() && (#[trigger] c[m]).1 == least(c);
    assert(eligible(c, m));
    let k = lemma_earliest(c, ordered, c.len() as int, m);
    assert(wins(c, ordered, k));
}

/// The selection after the first `k` trials of a sweep that nobody cancels, in which the
/// strategy at place `i` gives `results[i]`.
pub open spec fn swept(s: SelectionView, results: Seq<Option<u32>>, k: nat) -> SelectionView
    decreases k,
{
    if k == 0 {
        s
    } else {
        after(
            after(swept(s, results, (k - 1) as nat), Event::Cancel(false)),
            Event::Tried(results[k - 1]),
        )
    }
}

/// Every strategy gets its trial, in order and once: after `k` trials the strategy at place
/// `k` is asked for and then tried, whatever the trials before it gave, until all have been
/// tried. Nothing else about the selection changes on the way.
pub proof fn every_strategy_gets_its_trial(s: SelectionView, results: Seq<Option<u32>>, k: nat)
    requires
        sound(s),
        s.phase == Phase::Ask(0),
        results.len() == s.ordered.len(),
    ensures
        k < s.ordered.len() ==> swept(s, results, k).phase == Phase::Ask(k as usize),
        k < s.ordered.len() ==> after(swept(s, results, k), Event::Cancel(false)).phase
            == Phase::Trial(k as usize),
        k <= s.ordered.len() ==> swept(s, results, k).ordered == s.ordered,
        k <= s.ordered.len() ==> swept(s, results, k).lkg == s.lkg,
        k <= s.ordered.len() ==> swept(s, results, k).game_filter == s.game_filter,
    decreases k,
{
    if k > 0 {
        every_strategy_gets_its_trial(s, results, (k - 1) as nat);
    }
}

/// The first trial is that of the first strategy, unless the last known good one is there:
/// then that one is tried before, installed at once where it passes, and otherwise the
/// sweep begins at the first strategy.
pub proof fn the_known_good_goes_first(s: SelectionView, ping: u32)
    requires
        sound(s),
        s.phase == Phase::Prepare,
    ensures
        ({
            let next = after(s, Event::Prepared);
            &&& next.found == s.found && next.ordered == s.ordered
            &&& (s.lkg matches Some(n) ==> forall|i: int|
                0 <= i < s.ordered.len() ==> (#[trigger] s.ordered[i]).name != n) ==> next.phase
                == Phase::Ask(0)
            &&& (s.lkg matches Some(n) && exists|i: int|
                0 <= i < s.ordered.len() && (#[trigger] s.ordered[i]).name == n) ==> {
                &&& next.phase matches Phase::Quick(i)
                &&& i < s.ordered.len()
                &&& Some(s.ordered[i as int].name) == s.lkg
                &&& after(next, Event::Tried(Some(ping))).phase == Phase::Install(i)
                &&& after(next, Event::Tried(None)).phase == Phase::Ask(0)
                &&& after(next, Event::Tried(None)).found == s.found
            }
        }),
{
    match s.lkg {
        Some(n) => {
            lemma_index_named(s.ordered, n);
        },
        None => {},
    }
}

/// Whether the result at place `w` is the one to choose: a ping at most 15 ms above every
/// other, with no such ping at an earlier place.
pub open spec fn to_choose(results: Seq<Option<u32>>, w: int) -> bool {
    &&& 0 <= w < results.len()
    &&& results[w] matches Some(p)
    &&& forall|j: int|
        0 <= j < results.len() && (#[trigger] results[j]) is Some ==> p <= results[j]->0 + 15
    &&& forall|j: int|
        0 <= j < w && (#[trigger] results[j]) is Some ==> exists|m: int|
            0 <= m < results.len() && (#[trigger] results[m]) is Some && results[m]->0 + 15
                < results[j]->0
}

/// A whole sweep finds the best strategy: where no trial passes it ends with code 3, and
/// otherwise the strategy that is checked, installed when the check passes, and named by
/// the successful end is the earliest one whose ping is at most 15 ms above the least.
pub proof fn a_sweep_finds_the_best(s: SelectionView, results: Seq<Option<u32>>)
    requires
        sound(s),
        s.phase == Phase::Ask(0),
        s.found.len() == 0,
        distinct(s.ordered),
        results.len() == s.ordered.len(),
    ensures
        (forall|i: int| 0 <= i < results.len() ==> (#[trigger] results[i]) is None) ==> swept(
            s,
            results,
            results.len(),
        ).phase == Phase::Exit(3),
        (exists|i: int| 0 <= i < results.len() && (#[trigger] results[i]) is Some) ==> {
            let end = swept(s, results, results.len());
            &&& end.phase matches Phase::Verify(w)
            &&& to_choose(results, w as int)
            &&& after(end, Event::Verified(true)).phase == Phase::Install(w)
            &&& after(end, Event::Verified(false)).phase == Phase::Exit(3)
            &&& after(after(end, Event::Verified(true)), Event::Installed(true)).phase
                == Phase::Exit(0)
            &&& after(after(end, Event::Verified(true)), Event::Installed(false)).phase
                == Phase::Exit(1)
        },
{
    let n = results.len();
    let end = swept(s, results, n);
    let found = end.found;
    every_strategy_gets_its_trial(s, results, (n - 1) as nat);
    lemma_found(s, results, n);
    if found.len() == 0 {
        if exists|i: int| 0 <= i < n && (#[trigger] results[i]) is Some {
            let i = choose|i: int| 0 <= i < n && (#[trigger] results[i]) is Some;
            assert(found.contains((s.ordered[i].name, results[i]->0)));
        }
    } else {
        there_is_a_winner(found, s.ordered);
        lemma_least(found);
        let mid = after(swept(s, results, (n - 1) as nat), Event::Cancel(false));
        let k = winner(mid, found);
        assert(wins(found, s.ordered, k));
        let w = index_named(s.ordered, found[k].0)->0;
        assert(came_from(s, results, n, found[k], w)) by {
            assert(has_origin(s, results, n, found[k]));
            let i = choose|i: int| came_from(s, results, n, found[k], i);
            lemma_place(s.ordered, i);
        }
        assert(results[w] is Some);
        lemma_index_named(s.ordered, found[k].0);
        assert(end.phase == Phase::Verify(w as usize));
        assert forall|j: int| 0 <= j < n && (#[trigger] results[j]) is Some implies results[w]->0
            <= results[j]->0 + 15 by {
            let c = (s.ordered[j].name, results[j]->0);
            assert(found.contains(c));
            let m = choose|m: int| 0 <= m < found.len() && found[m] == c;
            assert(least(found) <= found[m].1);
        }
        assert forall|j: int| 0 <= j < w && (#[trigger] results[j]) is Some implies exists|m: int|
            0 <= m < n && (#[trigger] results[m]) is Some && results[m]->0 + 15
                < results[j]->0 by {
            let c = (s.ordered[j].name, results[j]->0);
            assert(found.contains(c));
            let q = choose|q: int| 0 <= q < found.len() && found[q] == c;
            lemma_place(s.ordered, j);
            lemma_place(s.ordered, w);
            if eligible(found, q) {
                assert(q != k);
                assert(goes_before(found, s.ordered, k, q));
            }
            let l = choose|l: int| 0 <= l < found.len() && (#[trigger] found[l]).1 == least(found);
            assert(has_origin(s, results, n, found[l]));
            let m = choose|m: int| came_from(s, results, n, found[l], m);
            assert(results[m] is Some);
        }
    }
}

/// Whether a candidate is the strategy at place `i` with the ping of its trial.
spec fn came_from(
    s: SelectionView,
    results: Seq<Option<u32>>,
    k: nat,
    c: (Seq<char>, u32),
    i: int,
) -> bool {
    0 <= i < k && s.ordered[i].name == c.0 && results[i] == Some(c.1)
}

/// Whether a candidate is one of the first `k` strategies with the ping of its trial.
spec fn has_origin(
    s: SelectionView,
    results: Seq<Option<u32>>,
    k: nat,
    c: (Seq<char>, u32),
) -> bool {
    exists|i: int| came_from(s, results, k, c, i)
}

proof fn lemma_place(ordered: Seq<StrategyView>, i: int)
    requires
        distinct(ordered),
        0 <= i < ordered.len(),
    ensures
        index_named(ordered, ordered[i].name) == Some(i),
{
    the_first_of_a_name_is_found(ordered, ordered[i].name, i);
}

proof fn lemma_found(s: SelectionView, results: Seq<Option<u32>>, k: nat)
    requires
        sound(s),
        s.phase == Phase::Ask(0),
        s.found.len() == 0,
        results.len() == s.ordered.len(),
        k <= results.len(),
    ensures
        forall|c: int|
            0 <= c < swept(s, results, k).found.len() ==> has_origin(
                s,
                results,
                k,
                #[trigger] swept(s, results, k).found[c],
            ),
        forall|i: int|
            0 <= i < k && (#[trigger] results[i]) is Some ==> swept(s, results, k).found.contains(
                (s.ordered[i].name, results[i]->0),
            ),
    decreases k,
{
    if k > 0 {
        let p = (k - 1) as nat;
        lemma_found(s, results, p);
        every_strategy_gets_its_trial(s, results, p);
        let before = swept(s, results, p).found;
        let now = swept(s, results, k).found;
        assert(now == (if results[p as int] is Some {
            before.push((s.ordered[p as int].name, results[p as int]->0))
        } else {
            before
        }));
        assert forall|c: int| 0 <= c < now.len() implies has_origin(
            s,
            results,
            k,
            #[trigger] now[c],
        ) by {
            if c < before.len() {
                assert(has_origin(s, results, p, before[c]));
                let i = choose|i: int| came_from(s, results, p, before[c], i);
                assert(came_from(s, results, k, now[c], i));
            } else {
                assert(came_from(s, results, k, now[c], p as int));
            }
        }
        assert forall|i: int| 0 <= i < k && (#[trigger] results[i]) is Some implies now.contains(
            (s.ordered[i].name, results[i]->0),
        ) by {
            let c = (s.ordered[i].name, results[i]->0);
            if i < p {
                assert(before.contains(c));
                let q = choose|q: int| 0 <= q < before.len() && before[q] == c;
                assert(now[q] == c);
            } else {
                assert(now[before.len() as int] == c);
            }
        }
    }
}

/// Every trial of the sweep is reported twice, when it begins and when it is over, under
/// its number, the number of all and its name; the second report tells whether it passed,
/// and the ping where it did.
pub proof fn every_trial_is_reported(s: SelectionView, i: usize, p: Option<u32>)
    requires
        sound(s),
        s.phase == Phase::Ask(i),
    ensures
        ({
            let begun = arrival(s, after(s, Event::Cancel(false)).phase);
            let over = outcome_report(after(s, Event::Cancel(false)), Event::Tried(p));
            &&& outcome_report(s, Event::Cancel(false)).len() == 0
            &&& begun.len() == 1 && over.len() == 1
            &&& begun[0].idx == i + 1 && over[0].idx == i + 1
            &&& begun[0].total == s.ordered.len() && over[0].total == s.ordered.len()
            &&& begun[0].strategy == s.ordered[i as int].name && over[0].strategy
                == s.ordered[i as int].name
            &&& begun[0].stage == "probe"@ && over[0].stage == "probe"@
            &&& begun[0].result == ""@ && begun[0].ping == 0
            &&& over[0].result == (if p is Some {
                "ok"@
            } else {
                "fail"@
            })
            &&& over[0].ping == (match p {
                Some(ms) => ms,
                None => 0,
            })
        }),
{
}

/// The code of a selection tells how it ended: 0 comes only from a strategy that was
/// installed, 1 from one that could not be, 2 from a cancellation, and 3 from a sweep in
/// which nothing passed or whose winner failed the check.
pub proof fn the_code_tells_the_end(s: SelectionView, e: Event)
    requires
        sound(s),
        expected(s.phase, e),
    ensures
        phase_after(s, e) == Phase::Exit(0) <==> s.phase is Install && e == Event::Installed(true),
        phase_after(s, e) == Phase::Exit(1) <==> s.phase is Install && e == Event::Installed(false),
        phase_after(s, e) == Phase::Canceled(2) <==> s.phase is Ask && e == Event::Cancel(true),
        phase_after(s, e) == Phase::Exit(3) <==> (ends_trials(s, e) && found_after(s, e).len() == 0)
            || (s.phase is Verify && e == Event::Verified(false)),
        phase_after(s, e) matches Phase::Exit(c) ==> c == 0 || c == 1 || c == 3,
        phase_after(s, e) matches Phase::Canceled(c) ==> c == 2,
{
}

/// Whoever follows the reports learns how a selection goes on and how it ends: the last
/// known good strategy and the check of the winner are reported under their names, a
/// cancellation and a selection that found nothing each under a word of its own, and an
/// installed winner by its name; a winner that could not be installed is not reported.
pub proof fn the_end_of_a_selection_is_reported(s: SelectionView, e: Event)
    requires
        sound(s),
        expected(s.phase, e),
    ensures
        ({
            let p = phase_after(s, e);
            let said = arrival(s, p);
            let told = outcome_report(s, e);
            &&& said.len() <= 1 && told.len() <= 1
            &&& p == Phase::Exit(3) <==> said.len() == 1 && said[0].stage == "none"@
            &&& p is Canceled <==> said.len() == 1 && said[0].stage == "canceled"@
            &&& (p matches Phase::Verify(i) ==> said.len() == 1 && said[0].stage == "verify"@
                && said[0].strategy == s.ordered[i as int].name)
            &&& (p matches Phase::Quick(i) ==> said.len() == 1 && said[0].stage == "lkg"@
                && said[0].strategy == s.ordered[i as int].name && said[0].idx == 1
                && said[0].total == s.ordered.len())
            &&& (s.phase matches Phase::Install(i) ==> if e == Event::Installed(true) {
                told.len() == 1 && told[0].stage == "installed"@ && told[0].strategy
                    == s.ordered[i as int].name
            } else {
                told.len() == 0
            })
            &&& p == Phase::Exit(0) || p == Phase::Exit(1) ==> said.len() == 0
        }),
{
    reveal_strlit("none");
    reveal_strlit("canceled");
    reveal_strlit("verify");
    reveal_strlit("lkg");
    reveal_strlit("probe");
    assert("none"@.len() == 4 && "canceled"@.len() == 8 && "verify"@.len() == 6 && "lkg"@.len() == 3
        && "probe"@.len() == 5);
}

} // verus!
