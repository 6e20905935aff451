//! Work spread over threads, by rayon.
use crate::data_tree::partial_reduce::{increasing_below, pick};
use rayon::iter::{IntoParallelIterator, ParallelIterator};
use vstd::prelude::*;

verus! {

/// `f` applied to each of `items`, on rayon's threads, by
/// `items.into_par_iter().map(f).collect()`.
///
/// Collecting an indexed parallel iterator into a `Vec` keeps the order of
/// the items, so the result at each position is what `f` gave for the item
/// at that position.
#[verifier::external_body]
pub(crate) fn par_map<T: Send, U: Send, F: Fn(T) -> U + Sync + Send>(items: Vec<T>, f: F) -> (mapped: Vec<U>)
    requires
        forall|i: int| 0 <= i < items@.len() ==> f.requires((items@[i],)),
    ensures
        mapped@.len() == items@.len(),
        forall|i: int| 0 <= i < items@.len() ==> f.ensures((items@[i],), #[trigger] mapped@[i]),
{
    items.into_par_iter().map(f).collect()
}

/// `chosen_items` are the items at the positions `chosen`, on which `f`
/// answered `true`, and `rest_items` those at the other positions, `rest`,
/// on which it answered `false`, each in the order of `items`.
pub open spec fn split_by<T, F: Fn(&T) -> bool>(
    f: F,
    items: Seq<T>,
    chosen: Seq<int>,
    rest: Seq<int>,
    chosen_items: Seq<T>,
    rest_items: Seq<T>,
) -> bool {
    &&& increasing_below(chosen, items.len() as int)
    &&& increasing_below(rest, items.len() as int)
    &&& forall|i: int| 0 <= i < items.len() ==> (chosen.contains(i) <==> !rest.contains(i))
    &&& forall|j: int| 0 <= j < chosen.len() ==> f.ensures((&items[#[trigger] chosen[j]],), true)
    &&& forall|j: int| 0 <= j < rest.len() ==> f.ensures((&items[#[trigger] rest[j]],), false)
    &&& chosen_items == pick(items, chosen)
    &&& rest_items == pick(items, rest)
}

/// Two parts of a sequence of items: those chosen and the others.
pub(crate) struct Parts<T> {
    /// The items chosen.
    pub chosen: Vec<T>,
    /// The other items.
    pub rest: Vec<T>,
}

/// The items for which `f` returns `true`, then the others, on rayon's
/// threads, by `items.into_par_iter().partition(f)`.
///
/// Each part is collected into a `Vec` by extending it in the order of the
/// items, so each keeps the order in which its items came.
#[verifier::external_body]
pub(crate) fn par_partition<T: Send, F: Fn(&T) -> bool + Sync + Send>(items: Vec<T>, f: F) -> (parts: Parts<T>)
    requires
        forall|i: int| 0 <= i < items@.len() ==> f.requires((&items@[i],)),
    ensures
        exists|chosen: Seq<int>, rest: Seq<int>|
            split_by(f, items@, chosen, rest, parts.chosen@, parts.rest@),
{
    let (chosen, rest) = items.into_par_iter().partition(f);
    Parts { chosen, rest }
}

} // verus!
