use std::cmp::Ordering;
use vstd::prelude::*;

verus! {

/// `order` is a total order: antisymmetric, reflexive and transitive.
pub open spec fn is_total_order<T>(order: spec_fn(T, T) -> Ordering) -> bool {
    &&& forall|a: T, b: T| #[trigger] order(a, b) == Ordering::Less <==> order(b, a) == Ordering::Greater
    &&& forall|a: T| #[trigger] order(a, a) == Ordering::Equal
    &&& forall|a: T, b: T, c: T|
        #[trigger] order(a, b) != Ordering::Greater && #[trigger] order(b, c) != Ordering::Greater
            ==> order(a, c) != Ordering::Greater
}

/// Every answer that `compare` may give on two values is what `order` says
/// of them, and `compare` may be called on any two values.
pub open spec fn follows<T, Compare: Fn(&T, &T) -> Ordering>(
    compare: Compare,
    order: spec_fn(T, T) -> Ordering,
) -> bool {
    &&& forall|a: T, b: T| #[trigger] compare.requires((&a, &b))
    &&& forall|a: T, b: T, answer: Ordering|
        #[trigger] compare.ensures((&a, &b), answer) ==> answer == order(a, b)
}

/// `compare` compares by some total order.
pub open spec fn compares_totally<T, Compare: Fn(&T, &T) -> Ordering>(compare: Compare) -> bool {
    exists|order: spec_fn(T, T) -> Ordering| is_total_order(order) && follows(compare, order)
}

/// A total order that `compare` follows (when there is one).
pub open spec fn order_of<T, Compare: Fn(&T, &T) -> Ordering>(compare: Compare) -> spec_fn(
    T,
    T,
) -> Ordering {
    choose|order: spec_fn(T, T) -> Ordering| is_total_order(order) && follows(compare, order)
}

/// `perm` is a permutation of `0..n`.
pub open spec fn is_permutation(perm: Seq<int>, n: nat) -> bool {
    &&& perm.len() == n
    &&& forall|i: int| 0 <= i < n ==> 0 <= #[trigger] perm[i] < n
    &&& forall|i: int, j: int| 0 <= i < j < n ==> perm[i] != perm[j]
}

/// `result` holds the items of `input`, rearranged by `order` from least to
/// greatest, and items that `order` finds equal keep their relative order.
pub open spec fn is_stable_sort_of<T>(
    result: Seq<T>,
    input: Seq<T>,
    order: spec_fn(T, T) -> Ordering,
) -> bool {
    exists|perm: Seq<int>|
        {
            &&& is_permutation(perm, input.len())
            &&& result.len() == input.len()
            &&& forall|i: int| 0 <= i < result.len() ==> #[trigger] result[i] == input[perm[i]]
            &&& forall|i: int, j: int|
                0 <= i < j < result.len() ==> order(result[i], result[j]) != Ordering::Greater
            &&& forall|i: int, j: int|
                0 <= i < j < result.len() && order(result[i], result[j]) == Ordering::Equal
                    ==> perm[i] < perm[j]
        }
}

/// Sorts `items` with `compare`, by [`slice::sort_by`].
///
/// The documentation of `sort_by` says that the sort is stable and that it
/// may panic when the comparison is not a total order; the contract says
/// that the result is the stable sort of the input by the total order that
/// `compare` follows.
#[verifier::external_body]
pub(crate) fn sort_by<T, Compare: Fn(&T, &T) -> Ordering>(items: &mut Vec<T>, compare: Compare)
    requires
        compares_totally(compare),
    ensures
        forall|order: spec_fn(T, T) -> Ordering|
            is_total_order(order) && follows(compare, order) ==> is_stable_sort_of(
                final(items)@,
                old(items)@,
                order,
            ),
{
    items.sort_by(compare)
}

} // verus!
