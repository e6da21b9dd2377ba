//! The first of some candidates that will do.
use vstd::prelude::*;

verus! {

use crate::text::{opt_text, texts};

/// The first item whose flag is set.
pub open spec fn first_where(items: Seq<Seq<char>>, flags: Seq<bool>) -> Option<Seq<char>>
    decreases items.len(),
{
    if items.len() == 0 || flags.len() == 0 {
        None
    } else if flags[0] {
        Some(items[0])
    } else {
        first_where(items.skip(1), flags.skip(1))
    }
}

/// The item that is picked has its flag set and no earlier one has; nothing is picked where
/// no flag is set.
pub proof fn the_first_that_will_do_is_picked(items: Seq<Seq<char>>, flags: Seq<bool>, k: int)
    requires
        items.len() == flags.len(),
    ensures
        0 <= k < items.len() && flags[k] && (forall|j: int| 0 <= j < k ==> !#[trigger] flags[j])
            ==> first_where(items, flags) == Some(items[k]),
        (forall|j: int| 0 <= j < items.len() ==> !#[trigger] flags[j]) <==> first_where(
            items,
            flags,
        ) is None,
    decreases items.len(),
{
    if items.len() > 0 && !flags[0] {
        let rest = flags.skip(1);
        the_first_that_will_do_is_picked(items.skip(1), rest, k - 1);
        assert forall|j: int| 0 <= j < rest.len() implies rest[j] == #[trigger] flags[j + 1] by {}
        if forall|j: int| 0 <= j < rest.len() ==> !#[trigger] rest[j] {
            assert forall|j: int| 0 <= j < items.len() implies !#[trigger] flags[j] by {
                if j > 0 {
                    assert(!rest[j - 1]);
                }
            }
        }
    }
}

/// The first item whose flag is set.
pub fn pick_first(items: &[String], flags: &[bool]) -> (r: Option<String>)
    ensures
        opt_text(r) == first_where(texts(items@), flags@),
{
    let ghost all = texts(items@);
    let mut i: usize = 0;
    assert(all.skip(0) =~= all && flags@.skip(0) =~= flags@);
    while i < items.len() && i < flags.len()
        invariant
            i <= items@.len(),
            i <= flags@.len(),
            all == texts(items@),
            first_where(all, flags@) == first_where(all.skip(i as int), flags@.skip(i as int)),
        decreases items@.len() - i,
    {
        assert(all.skip(i as int)[0] == items@[i as int]@);
        assert(flags@.skip(i as int)[0] == flags@[i as int]);
        assert(all.skip(i as int).skip(1) =~= all.skip(i + 1));
        assert(flags@.skip(i as int).skip(1) =~= flags@.skip(i + 1));
        if flags[i] {
            return Some(items[i].clone());
        }
        i += 1;
    }
    None
}

} // verus!
