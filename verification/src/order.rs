//! Lexicographic order on keys made of numbers and words, and a stable sort by such keys.
use vstd::prelude::*;

use crate::text::chars_of;

verus! {

/// The dictionary order on texts, by code points.
pub open spec fn text_lt(a: Seq<char>, b: Seq<char>) -> bool
    decreases a.len(),
{
    if b.len() == 0 {
        false
    } else if a.len() == 0 {
        true
    } else if a[0] != b[0] {
        a[0] < b[0]
    } else {
        text_lt(a.skip(1), b.skip(1))
    }
}

/// One part of a key: a number, then a word.
pub type PartView = (nat, Seq<char>);

/// The order on the parts of a key: by the number, then by the word.
pub open spec fn part_lt(a: PartView, b: PartView) -> bool {
    a.0 < b.0 || (a.0 == b.0 && text_lt(a.1, b.1))
}

/// The dictionary order on lists of parts.
pub open spec fn parts_lt(a: Seq<PartView>, b: Seq<PartView>) -> bool
    decreases a.len(),
{
    if b.len() == 0 {
        false
    } else if a.len() == 0 {
        true
    } else if a[0] != b[0] {
        part_lt(a[0], b[0])
    } else {
        parts_lt(a.skip(1), b.skip(1))
    }
}

/// A sort key as a mathematical value: a rank, then the parts of a name.
pub type KeyView = (nat, Seq<PartView>);

/// The order on keys: by the rank, then by the parts.
pub open spec fn key_lt(a: KeyView, b: KeyView) -> bool {
    a.0 < b.0 || (a.0 == b.0 && parts_lt(a.1, b.1))
}

/// The parts of a list as mathematical values.
pub open spec fn parts_view(v: Seq<(u64, String)>) -> Seq<PartView> {
    Seq::new(v.len(), |i: int| (v[i].0 as nat, v[i].1@))
}

/// A sort key.
pub struct SortKey {
    /// Compared first.
    pub rank: u8,
    /// Compared part by part when the ranks are equal.
    pub parts: Vec<(u64, String)>,
}

impl View for SortKey {
    type V = KeyView;

    open spec fn view(&self) -> KeyView {
        (self.rank as nat, parts_view(self.parts@))
    }
}

// ── The order is that of a dictionary ───────────────────────────────────────

/// Texts compare by the first character in which they differ, and one that continues
/// another comes behind it.
pub proof fn the_first_difference_decides(
    p: Seq<char>,
    x: char,
    y: char,
    a: Seq<char>,
    b: Seq<char>,
)
    ensures
        x < y ==> text_lt(p + seq![x] + a, p + seq![y] + b),
        x > y ==> !text_lt(p + seq![x] + a, p + seq![y] + b),
        text_lt(p, p + seq![x] + a),
        !text_lt(p + seq![x] + a, p),
    decreases p.len(),
{
    let s = p + seq![x] + a;
    let t = p + seq![y] + b;
    if p.len() > 0 {
        let q = p.skip(1);
        the_first_difference_decides(q, x, y, a, b);
        assert(s.skip(1) =~= q + seq![x] + a);
        assert(t.skip(1) =~= q + seq![y] + b);
        assert(s[0] == p[0] && t[0] == p[0]);
    } else {
        assert(s[0] == x && t[0] == y);
    }
}

/// Keys compare by the rank, then by the first part in which they differ, and there by the
/// number before the word; a key that continues another comes behind it.
pub proof fn ranks_and_numbers_decide(a: KeyView, b: KeyView, p: Seq<PartView>, x: PartView, y: PartView)
    ensures
        a.0 < b.0 ==> key_lt(a, b),
        a.0 > b.0 ==> !key_lt(a, b),
        a.0 == b.0 ==> key_lt((a.0, p), (b.0, p.push(x))),
        a.0 == b.0 && x.0 < y.0 ==> key_lt((a.0, p.push(x) + a.1), (b.0, p.push(y) + b.1)),
        a.0 == b.0 && x.0 == y.0 && text_lt(x.1, y.1) ==> key_lt(
            (a.0, p.push(x) + a.1),
            (b.0, p.push(y) + b.1),
        ),
    decreases p.len(),
{
    let s = p.push(x) + a.1;
    let t = p.push(y) + b.1;
    text_lt_total(x.1, x.1);
    if p.len() > 0 {
        let q = p.skip(1);
        ranks_and_numbers_decide(a, b, q, x, y);
        assert(s.skip(1) =~= q.push(x) + a.1);
        assert(t.skip(1) =~= q.push(y) + b.1);
        assert(p.push(x).skip(1) =~= q.push(x));
        assert(s[0] == p[0] && t[0] == p[0]);
    } else {
        assert(s[0] == x && t[0] == y);
    }
}

// ── The order is total ──────────────────────────────────────────────────────

proof fn text_lt_trans(a: Seq<char>, b: Seq<char>, c: Seq<char>)
    requires
        text_lt(a, b),
        text_lt(b, c),
    ensures
        text_lt(a, c),
    decreases a.len(),
{
    if a.len() > 0 && a[0] == b[0] && b[0] == c[0] {
        text_lt_trans(a.skip(1), b.skip(1), c.skip(1));
    }
}

proof fn text_lt_total(a: Seq<char>, b: Seq<char>)
    ensures
        !text_lt(a, a),
        text_lt(a, b) ==> !text_lt(b, a),
        text_lt(a, b) || text_lt(b, a) || a == b,
    decreases a.len(),
{
    if a.len() > 0 {
        text_lt_total(a.skip(1), a.skip(1));
        if b.len() > 0 && a[0] == b[0] {
            text_lt_total(a.skip(1), b.skip(1));
            if a.skip(1) == b.skip(1) {
                assert(a =~= seq![a[0]] + a.skip(1));
                assert(b =~= seq![b[0]] + b.skip(1));
            }
        }
    } else if b.len() == 0 {
        assert(a =~= b);
    }
}

proof fn parts_lt_trans(a: Seq<PartView>, b: Seq<PartView>, c: Seq<PartView>)
    requires
        parts_lt(a, b),
        parts_lt(b, c),
    ensures
        parts_lt(a, c),
    decreases a.len(),
{
    if a.len() > 0 {
        if a[0] == b[0] && b[0] == c[0] {
            parts_lt_trans(a.skip(1), b.skip(1), c.skip(1));
        } else if a[0] != b[0] && b[0] != c[0] {
            if a[0].0 == b[0].0 && b[0].0 == c[0].0 {
                text_lt_trans(a[0].1, b[0].1, c[0].1);
            }
            text_lt_total(a[0].1, a[0].1);
        }
    }
}

proof fn parts_lt_total(a: Seq<PartView>, b: Seq<PartView>)
    ensures
        !parts_lt(a, a),
        parts_lt(a, b) ==> !parts_lt(b, a),
        parts_lt(a, b) || parts_lt(b, a) || a == b,
    decreases a.len(),
{
    if a.len() > 0 {
        parts_lt_total(a.skip(1), a.skip(1));
        if b.len() > 0 {
            text_lt_total(a[0].1, b[0].1);
            if a[0] == b[0] {
                parts_lt_total(a.skip(1), b.skip(1));
                if a.skip(1) == b.skip(1) {
                    assert(a =~= seq![a[0]] + a.skip(1));
                    assert(b =~= seq![b[0]] + b.skip(1));
                }
            }
        }
    } else if b.len() == 0 {
        assert(a =~= b);
    }
}

/// The order on keys is total: of two keys exactly one is smaller, or they are equal;
/// and what is not smaller than a middle key is not smaller than what lies below it.
pub proof fn key_order_is_total(a: KeyView, b: KeyView, c: KeyView)
    ensures
        !key_lt(a, a),
        key_lt(a, b) ==> !key_lt(b, a),
        key_lt(a, b) || key_lt(b, a) || a == b,
        key_lt(a, b) && key_lt(b, c) ==> key_lt(a, c),
        !key_lt(b, a) && !key_lt(c, b) ==> !key_lt(c, a),
{
    parts_lt_total(a.1, b.1);
    parts_lt_total(b.1, c.1);
    parts_lt_total(a.1, c.1);
    if parts_lt(a.1, b.1) && parts_lt(b.1, c.1) {
        parts_lt_trans(a.1, b.1, c.1);
    }
    if parts_lt(c.1, a.1) && parts_lt(a.1, b.1) {
        parts_lt_trans(c.1, a.1, b.1);
    }
    if parts_lt(b.1, c.1) && parts_lt(c.1, a.1) {
        parts_lt_trans(b.1, c.1, a.1);
    }
}

// ── Comparing ───────────────────────────────────────────────────────────────

/// Whether `a` comes before `b` in the dictionary.
pub fn text_before(a: &str, b: &str) -> (r: bool)
    ensures
        r == text_lt(a@, b@),
{
    let x = chars_of(a);
    let y = chars_of(b);
    let mut i: usize = 0;
    assert(a@.skip(0) =~= a@ && b@.skip(0) =~= b@);
    while i < x.len() && i < y.len()
        invariant
            i <= x@.len(),
            i <= y@.len(),
            x@ == a@,
            y@ == b@,
            text_lt(a@, b@) == text_lt(a@.skip(i as int), b@.skip(i as int)),
        decreases x@.len() - i,
    {
        if x[i] != y[i] {
            return x[i] < y[i];
        }
        assert(a@.skip(i as int).skip(1) =~= a@.skip(i + 1));
        assert(b@.skip(i as int).skip(1) =~= b@.skip(i + 1));
        i += 1;
    }
    i < y.len()
}

/// Whether `a` comes before `b`.
pub fn key_before(a: &SortKey, b: &SortKey) -> (r: bool)
    ensures
        r == key_lt(a@, b@),
{
    if a.rank != b.rank {
        return a.rank < b.rank;
    }
    let ghost pa = parts_view(a.parts@);
    let ghost pb = parts_view(b.parts@);
    let mut i: usize = 0;
    assert(pa.skip(0) =~= pa && pb.skip(0) =~= pb);
    while i < a.parts.len() && i < b.parts.len()
        invariant
            i <= a.parts@.len(),
            i <= b.parts@.len(),
            pa == parts_view(a.parts@),
            pb == parts_view(b.parts@),
            a.rank == b.rank,
            parts_lt(pa, pb) == parts_lt(pa.skip(i as int), pb.skip(i as int)),
        decreases a.parts@.len() - i,
    {
        let m: u64 = a.parts[i].0;
        let n: u64 = b.parts[i].0;
        let u = a.parts[i].1.as_str();
        let w = b.parts[i].1.as_str();
        proof {
            text_lt_total(u@, w@);
        }
        if m != n {
            return m < n;
        }
        if text_before(u, w) {
            return true;
        }
        if text_before(w, u) {
            return false;
        }
        assert(pa.skip(i as int).skip(1) =~= pa.skip(i + 1));
        assert(pb.skip(i as int).skip(1) =~= pb.skip(i + 1));
        i += 1;
    }
    i < b.parts.len()
}

// ── Sorting ─────────────────────────────────────────────────────────────────

/// `p` rearranges the positions `0..n`.
pub open spec fn rearranges(p: Seq<int>, n: nat) -> bool {
    &&& p.len() == n
    &&& forall|i: int| 0 <= i < n ==> 0 <= #[trigger] p[i] < n
    &&& forall|i: int, j: int| 0 <= i < j < n ==> #[trigger] p[i] != #[trigger] p[j]
}

/// `new` holds the items of `old` as `p` rearranges them, in ascending order of their
/// keys; items with equal keys stay in the order that they had.
pub open spec fn sorted_stably<T>(
    old_items: Seq<T>,
    keys: Seq<KeyView>,
    new_items: Seq<T>,
    p: Seq<int>,
) -> bool {
    &&& rearranges(p, old_items.len())
    &&& new_items.len() == old_items.len()
    &&& forall|i: int| 0 <= i < p.len() ==> #[trigger] new_items[i] == old_items[p[i]]
    &&& forall|i: int, j: int|
        0 <= i < j < p.len() ==> {
            ||| key_lt(keys[#[trigger] p[i]], keys[#[trigger] p[j]])
            ||| keys[p[i]] == keys[p[j]] && p[i] < p[j]
        }
}

/// The keys of a list as mathematical values.
pub open spec fn keys_view(keys: Seq<SortKey>) -> Seq<KeyView> {
    Seq::new(keys.len(), |i: int| keys[i]@)
}

/// The first `m` items are in order, and the others have not moved.
spec fn sorted_so_far(keys: Seq<KeyView>, p: Seq<int>, m: int) -> bool {
    &&& forall|i: int, j: int|
        0 <= i < j < m ==> {
            ||| key_lt(keys[#[trigger] p[i]], keys[#[trigger] p[j]])
            ||| keys[p[i]] == keys[p[j]] && p[i] < p[j]
        }
    &&& forall|i: int| m <= i < p.len() ==> #[trigger] p[i] == i
    &&& forall|i: int| 0 <= i < m ==> #[trigger] p[i] < m
}

/// Sorts `items` by `keys`, where `keys[i]` is the key of `items[i]`. Items with equal
/// keys stay in the order that they had.
pub fn sort_by_keys<T>(items: &mut Vec<T>, keys: Vec<SortKey>)
    requires
        keys@.len() == old(items)@.len(),
    ensures
        exists|p: Seq<int>| sorted_stably(old(items)@, keys_view(keys@), final(items)@, p),
{
    let mut ks = keys;
    let ghost orig = items@;
    let ghost kv = keys_view(keys@);
    let ghost mut p: Seq<int> = Seq::new(orig.len(), |i: int| i);
    let n: usize = items.len();
    let mut i: usize = 0;
    while i < n
        invariant
            i <= n,
            n == orig.len(),
            kv.len() == n,
            items@.len() == n,
            ks@.len() == n,
            rearranges(p, n as nat),
            forall|k: int| 0 <= k < n ==> #[trigger] items@[k] == orig[p[k]],
            forall|k: int| 0 <= k < n ==> (#[trigger] ks@[k])@ == kv[p[k]],
            sorted_so_far(kv, p, i as int),
        decreases n - i,
    {
        let mut j: usize = i;
        while j > 0 && key_before(&ks[i], &ks[j - 1])
            invariant
                j <= i < n,
                ks@.len() == n,
                p.len() == n,
                forall|k: int| 0 <= k < n ==> (#[trigger] ks@[k])@ == kv[p[k]],
                forall|k: int| j <= k < i ==> key_lt(kv[p[i as int]], kv[#[trigger] p[k]]),
            decreases j,
        {
            j -= 1;
        }
        let ghost q = p;
        let ghost before = items@;
        let ghost kbefore = ks@;
        let x = items.remove(i);
        items.insert(j, x);
        let k = ks.remove(i);
        ks.insert(j, k);
        proof {
            p = q.remove(i as int).insert(j as int, q[i as int]);
            assert forall|a: int| 0 <= a < n implies #[trigger] p[a] == q[moved(
                i as int,
                j as int,
                a,
            )] by {}
            assert forall|a: int| 0 <= a < n implies #[trigger] items@[a] == before[moved(
                i as int,
                j as int,
                a,
            )] by {}
            assert forall|a: int| 0 <= a < n implies #[trigger] ks@[a] == kbefore[moved(
                i as int,
                j as int,
                a,
            )] by {}
            lemma_insert_keeps_order(kv, q, p, i as int, j as int);
        }
        i += 1;
    }
    assert(sorted_stably(orig, kv, items@, p));
}

/// Where the item that stands at `a` stood before the item at `i` moved down to `j`.
spec fn moved(i: int, j: int, a: int) -> int {
    if a < j || a > i {
        a
    } else if a == j {
        i
    } else {
        a - 1
    }
}

proof fn lemma_insert_keeps_order(keys: Seq<KeyView>, q: Seq<int>, p: Seq<int>, i: int, j: int)
    requires
        0 <= j <= i < q.len(),
        p.len() == q.len(),
        rearranges(q, q.len()),
        sorted_so_far(keys, q, i),
        forall|a: int| 0 <= a < q.len() ==> #[trigger] p[a] == q[moved(i, j, a)],
        forall|k: int| j <= k < i ==> key_lt(keys[q[i]], keys[#[trigger] q[k]]),
        j > 0 ==> !key_lt(keys[q[i]], keys[q[j - 1]]),
    ensures
        rearranges(p, p.len()),
        sorted_so_far(keys, p, i + 1),
{
    assert forall|a: int, b: int| 0 <= a < b < p.len() implies #[trigger] p[a] != #[trigger] p[b] by {
        let ma = moved(i, j, a);
        let mb = moved(i, j, b);
        assert(ma != mb);
        assert(q[ma] != q[mb]);
    }
    assert forall|a: int, b: int| 0 <= a < b < i + 1 implies {
        ||| key_lt(keys[#[trigger] p[a]], keys[#[trigger] p[b]])
        ||| keys[p[a]] == keys[p[b]] && p[a] < p[b]
    } by {
        let ma = moved(i, j, a);
        let mb = moved(i, j, b);
        if b == j {
            let x = keys[q[a]];
            let y = keys[q[j - 1]];
            let z = keys[q[i]];
            assert(q[i] == i && q[a] < i);
            assert(!key_lt(y, x)) by {
                key_order_is_total(x, y, y);
                if a < j - 1 {
                    assert(key_lt(keys[q[a]], keys[q[j - 1]]) || keys[q[a]] == keys[q[j - 1]]);
                }
            }
            key_order_is_total(x, y, z);
            key_order_is_total(x, z, z);
        } else if a == j {
            assert(key_lt(keys[q[i]], keys[q[mb]]));
        } else {
            assert(ma < mb < i);
            assert(q[ma] == p[a] && q[mb] == p[b]);
        }
    }
}

/// Sorting loses nothing, invents nothing and orders by the keys: every item stands in the
/// sorted list exactly as often as before, no item stands before one with a smaller key,
/// and of two with equal keys the one that stood earlier still does.
pub proof fn sorting_orders_and_keeps<T>(
    old_items: Seq<T>,
    keys: Seq<KeyView>,
    new_items: Seq<T>,
    p: Seq<int>,
)
    requires
        keys.len() == old_items.len(),
        sorted_stably(old_items, keys, new_items, p),
    ensures
        new_items.len() == old_items.len(),
        forall|i: int| 0 <= i < new_items.len() ==> #[trigger] new_items[i] == old_items[p[i]],
        forall|k: int| 0 <= k < old_items.len() ==> #[trigger] p.contains(k),
        forall|k: int| 0 <= k < old_items.len() ==> new_items.contains(#[trigger] old_items[k]),
        forall|i: int, j: int|
            0 <= i < j < new_items.len() ==> p[i] != p[j] && !key_lt(
                keys[#[trigger] p[j]],
                keys[#[trigger] p[i]],
            ),
        forall|i: int, j: int|
            0 <= i < j < new_items.len() && keys[#[trigger] p[i]] == keys[#[trigger] p[j]] ==> p[i]
                < p[j],
{
    assert forall|i: int, j: int| 0 <= i < j < new_items.len() implies p[i] != p[j] && !key_lt(
        keys[#[trigger] p[j]],
        keys[#[trigger] p[i]],
    ) by {
        key_order_is_total(keys[p[i]], keys[p[j]], keys[p[i]]);
    }
    assert forall|i: int, j: int|
        0 <= i < j < new_items.len() && keys[#[trigger] p[i]] == keys[#[trigger] p[j]] implies p[i]
        < p[j] by {
        key_order_is_total(keys[p[i]], keys[p[j]], keys[p[i]]);
    }
    assert forall|k: int| 0 <= k < old_items.len() implies #[trigger] p.contains(k)
        && new_items.contains(old_items[k]) by {
        lemma_rearranges_onto(p, old_items.len(), k);
        let i = choose|i: int| 0 <= i < p.len() && #[trigger] p[i] == k;
        assert(new_items[i] == old_items[p[i]]);
    }
    assert forall|k: int| 0 <= k < old_items.len() implies new_items.contains(
        #[trigger] old_items[k],
    ) by {
        assert(p.contains(k));
    }
}

proof fn lemma_rearranges_onto(p: Seq<int>, n: nat, k: int)
    requires
        rearranges(p, n),
        0 <= k < n,
    ensures
        exists|i: int| 0 <= i < p.len() && #[trigger] p[i] == k,
    decreases n,
{
    let m = n - 1;
    let last = p[m];
    if last == k {
        assert(p[m] == k);
    } else {
        let q = Seq::new(m as nat, |i: int| if p[i] == m { last } else { p[i] });
        assert(rearranges(q, m as nat)) by {
            assert forall|i: int| 0 <= i < m implies 0 <= #[trigger] q[i] < m by {
                assert(p[i] != p[m]);
            }
            assert forall|i: int, j: int| 0 <= i < j < m implies #[trigger] q[i] != #[trigger] q[j] by {
                assert(p[i] != p[j] && p[i] != p[m] && p[j] != p[m]);
            }
        }
        if k == m {
            if forall|i: int| 0 <= i < m ==> #[trigger] p[i] != m {
                lemma_rearranges_onto(q, m as nat, last);
                let i = choose|i: int| 0 <= i < q.len() && #[trigger] q[i] == last;
                assert(p[i] == last);
                assert(p[i] != p[m]);
            }
        } else {
            lemma_rearranges_onto(q, m as nat, k);
            let i = choose|i: int| 0 <= i < q.len() && #[trigger] q[i] == k;
            if p[i] == m {
                assert(last == k);
            }
            assert(p[i] == k);
        }
    }
}

} // verus!
