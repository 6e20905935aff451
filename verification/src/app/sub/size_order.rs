//! The order of the chart: larger entries first.
use crate::data_tree::DataTree;
use crate::total_order::{compares_totally, follows, is_total_order};
use std::cmp::Ordering;
use vstd::prelude::*;

verus! {

/// Larger trees come first; trees of equal sizes are equal in this order.
pub open spec fn larger_first_order() -> spec_fn(DataTree<String>, DataTree<String>) -> Ordering {
    |left: DataTree<String>, right: DataTree<String>|
        if left.spec_size() > right.spec_size() {
            Ordering::Less
        } else if left.spec_size() < right.spec_size() {
            Ordering::Greater
        } else {
            Ordering::Equal
        }
}

/// Compares two trees by size, the larger first.
pub fn larger_first(left: &DataTree<String>, right: &DataTree<String>) -> (order: Ordering)
    ensures
        order == larger_first_order()(*left, *right),
{
    let left_size = left.size();
    let right_size = right.size();
    if left_size > right_size {
        Ordering::Less
    } else if left_size < right_size {
        Ordering::Greater
    } else {
        Ordering::Equal
    }
}

/// Sort every level of `tree` by size, the larger entries first, keeping
/// entries of equal sizes in their order.
pub fn sort_larger_first(tree: &mut DataTree<String>)
    ensures
        final(tree).sorted_from(*old(tree), larger_first_order()),
        old(tree).wf() ==> final(tree).wf(),
{
    let compare = |left: &DataTree<String>, right: &DataTree<String>| -> (order: Ordering)
        ensures
            order == larger_first_order()(*left, *right),
        { larger_first(left, right) };
    proof {
        let order = larger_first_order();
        assert(is_total_order(order));
        assert(follows(compare, order));
        assert(compares_totally(compare));
    }
    tree.par_sort_by(compare);
}

} // verus!
