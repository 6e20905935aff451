//! Removal of arguments that point to the same tree as another argument,
//! or to a subtree of it.
pub use super::overlapping_arguments::remove_items_from_vec_by_indices;

use super::overlapping_arguments::{
    find_overlapping_paths_to_remove, is_overlapping, remove_overlapping_paths, resolved_arguments,
    without_indices,
    CanonicalizeArgument, IsRealDir,
};
use std::collections::HashSet;
use vstd::prelude::*;

verus! {

/// Hardlinks deduplication doesn't work properly if there are more than 1
/// paths pointing to the same tree or if a path points to a subtree of
/// another path. Therefore, we must find and remove such duplications before
/// they cause problem.
pub fn deduplicate_arguments<Sys>(arguments: &mut Vec<Sys::Argument>) where
    Sys: CanonicalizeArgument + IsRealDir,

    ensures
        exists|real_paths: Seq<Option<Seq<char>>>|
            resolved_arguments::<Sys>(old(arguments)@, real_paths) && final(arguments)@ == without_indices(
                old(arguments)@,
                Set::new(|i: usize| is_overlapping(real_paths, i as int)),
            ),
{
    remove_overlapping_paths::<Sys>(arguments)
}

/// Find duplication in a list of arguments to remove and return their
/// indices.
///
/// Prefer keeping the containing tree over the subtree (returning the index
/// of the subtree).
///
/// Prefer keeping the first instance of the path over the later instances
/// (returning the indices of the later instances).
pub fn find_argument_duplications_to_remove<Sys>(arguments: &[Sys::Argument]) -> (to_remove: HashSet<usize>) where
    Sys: CanonicalizeArgument + IsRealDir,

    ensures
        exists|real_paths: Seq<Option<Seq<char>>>|
            resolved_arguments::<Sys>(arguments@, real_paths) && forall|i: usize|
                to_remove@.contains(i) <==> is_overlapping(real_paths, i as int),
{
    find_overlapping_paths_to_remove::<Sys>(arguments)
}

} // verus!
