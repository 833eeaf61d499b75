//! Putting records in the order of their keys.

use itertools::Itertools;
use vstd::prelude::*;

verus! {

/// `order` lists the positions of `keys` sorted by key, positions with equal
/// keys in their own order.
pub open spec fn is_stable_order(keys: Seq<i64>, order: Seq<usize>) -> bool {
    &&& order.len() == keys.len()
    &&& forall|i: int| 0 <= i < order.len() ==> (#[trigger] order[i]) < keys.len()
    &&& forall|k: usize| k < keys.len() ==> #[trigger] order.contains(k)
    &&& forall|i: int, j: int|
        0 <= i < j < order.len() ==> keys[(#[trigger] order[i]) as int] < keys[(
        #[trigger] order[j]) as int] || (keys[order[i] as int] == keys[order[j] as int] && order[i]
            < order[j])
}

/// Calls `Itertools::sorted_by_key` of the `itertools` crate on the keys with
/// their positions, and hands back the positions. That sort is stable, so the
/// positions come out ordered by key, and by position where keys are equal.
#[verifier::external_body]
pub(crate) fn stable_order(keys: &Vec<i64>) -> (r: Vec<usize>)
    ensures
        is_stable_order(keys@, r@),
{
    keys.iter().enumerate().sorted_by_key(|pair| *pair.1).map(|pair| pair.0).collect()
}

} // verus!
