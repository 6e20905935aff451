use crate::path_ops::{path_eq, path_equals, path_starts_with, starts_with};
use std::collections::HashSet;
use vstd::prelude::*;

verus! {

broadcast use vstd::std_specs::hash::group_hash_axioms;

/// The command-line argument that the argument-resolution capabilities operate on.
pub trait ArgumentSource {
    /// The argument value that the capabilities below resolve.
    type Argument;
}

/// Capability: resolve an argument to its canonical real path.
///
/// Returns `None` when the argument cannot be resolved, for example because it
/// does not exist, or when the real path is not valid UTF-8.
pub trait CanonicalizeArgument: ArgumentSource {
    fn canonicalize(argument: &Self::Argument) -> Option<String>;
}

/// Capability: check whether an argument refers to a real directory.
///
/// A symbolic link, even one pointing at a directory, is not a real directory
/// for this purpose.
pub trait IsRealDir: ArgumentSource {
    fn is_real_dir(argument: &Self::Argument) -> bool;
}

/// The text of an optional real path.
pub open spec fn path_text(real_path: Option<String>) -> Option<Seq<char>> {
    match real_path {
        Some(s) => Some(s@),
        None => None,
    }
}

/// `real_path` is what resolving `argument` gives, with the answers of
/// `Sys`: `Sys::is_real_dir` was asked about it; where it answered `false`
/// there is no real path, and otherwise `Sys::canonicalize` was asked about
/// it and `real_path` is its answer.
pub open spec fn resolved_argument<Sys: CanonicalizeArgument + IsRealDir>(
    argument: Sys::Argument,
    real_path: Option<Seq<char>>,
) -> bool {
    exists|is_dir: bool|
        #[trigger] call_ensures(Sys::is_real_dir, (&argument,), is_dir) && if is_dir {
            exists|canonical: Option<String>|
                #[trigger] call_ensures(Sys::canonicalize, (&argument,), canonical) && path_text(
                    canonical,
                ) == real_path
        } else {
            real_path is None
        }
}

/// `real_paths` holds, position by position, what resolving each of
/// `arguments` gives.
pub open spec fn resolved_arguments<Sys: CanonicalizeArgument + IsRealDir>(
    arguments: Seq<Sys::Argument>,
    real_paths: Seq<Option<Seq<char>>>,
) -> bool {
    &&& real_paths.len() == arguments.len()
    &&& forall|i: int|
        0 <= i < arguments.len() ==> #[trigger] resolved_argument::<Sys>(arguments[i], real_paths[i])
}

/// Which of the two arguments at `left < right` a comparison of their real
/// paths removes: the second of two equal paths, or the one inside the
/// other.
pub open spec fn pair_removes(real_paths: Seq<Option<Seq<char>>>, left: int, right: int) -> Option<int> {
    match (real_paths[left], real_paths[right]) {
        (Some(l), Some(r)) => if path_equals(l, r) {
            Some(right)
        } else if path_starts_with(l, r) {
            Some(left)
        } else if path_starts_with(r, l) {
            Some(right)
        } else {
            None
        },
        _ => None,
    }
}

/// The characters of each resolved path.
pub open spec fn path_views(real_paths: Seq<Option<String>>) -> Seq<Option<Seq<char>>> {
    real_paths.map_values(|p: Option<String>| path_text(p))
}

/// Whether the argument at `index` overlaps an earlier or later one in a way
/// that removes it.
pub open spec fn is_overlapping(real_paths: Seq<Option<Seq<char>>>, index: int) -> bool {
    exists|left: int, right: int|
        0 <= left < right < real_paths.len() && #[trigger] pair_removes(real_paths, left, right)
            == Some(index)
}

/// What removing the overlaps leaves: an argument without a real path is
/// never removed, and of two kept arguments with real paths, neither path
/// equals the other nor lies inside it.
pub proof fn lemma_kept_arguments_do_not_overlap(real_paths: Seq<Option<Seq<char>>>)
    ensures
        forall|i: int|
            0 <= i < real_paths.len() && real_paths[i] is None ==> !is_overlapping(real_paths, i),
        forall|i: int, j: int|
            0 <= i < j < real_paths.len() && !is_overlapping(real_paths, i) && !is_overlapping(
                real_paths,
                j,
            ) ==> #[trigger] pair_removes(real_paths, i, j) is None,
{
    assert forall|i: int|
        0 <= i < real_paths.len() && real_paths[i] is None implies !is_overlapping(real_paths, i) by {
        if is_overlapping(real_paths, i) {
            let (left, right) = choose|left: int, right: int|
                0 <= left < right < real_paths.len() && #[trigger] pair_removes(real_paths, left, right)
                    == Some(i);
            assert(pair_removes(real_paths, left, right) == Some(i));
        }
    }
    assert forall|i: int, j: int|
        0 <= i < j < real_paths.len() && !is_overlapping(real_paths, i) && !is_overlapping(
            real_paths,
            j,
        ) implies #[trigger] pair_removes(real_paths, i, j) is None by {
        if let Some(k) = pair_removes(real_paths, i, j) {
            assert(pair_removes(real_paths, i, j) == Some(k));
            assert(k == i || k == j);
            assert(is_overlapping(real_paths, k));
        }
    }
}

/// The items of `items` whose positions are not in `indices`, in order.
pub open spec fn without_indices<T>(items: Seq<T>, indices: Set<usize>) -> Seq<T>
    decreases items.len(),
{
    if items.len() == 0 {
        Seq::empty()
    } else {
        let rest = without_indices(items.drop_last(), indices);
        if indices.contains((items.len() - 1) as usize) {
            rest
        } else {
            rest.push(items.last())
        }
    }
}

/// Find the positions of overlapping real paths: for every two resolved
/// paths, the second of two equal paths, or the one that lies inside the
/// other. Unresolved paths (`None`) overlap nothing.
pub fn indices_to_remove(real_paths: &[Option<String>]) -> (to_remove: HashSet<usize>)
    ensures
        forall|i: usize|
            to_remove@.contains(i) <==> is_overlapping(
                path_views(real_paths@),
                i as int,
            ),
{
    let ghost views = path_views(real_paths@);
    let mut to_remove: HashSet<usize> = HashSet::new();
    let len = real_paths.len();
    for left_index in 0..len
        invariant
            len == real_paths@.len(),
            views == path_views(real_paths@),
            forall|i: usize|
                to_remove@.contains(i) <==> exists|left: int, right: int|
                    0 <= left < left_index && left < right < len && #[trigger] pair_removes(
                        views,
                        left,
                        right,
                    ) == Some(i as int),
    {
        for right_index in (left_index + 1)..len
            invariant
                len == real_paths@.len(),
                left_index < len,
                views == path_views(real_paths@),
                forall|i: usize|
                    to_remove@.contains(i) <==> (exists|left: int, right: int|
                        0 <= left < left_index && left < right < len && #[trigger] pair_removes(
                            views,
                            left,
                            right,
                        ) == Some(i as int)) || (exists|right: int|
                        left_index < right < right_index && #[trigger] pair_removes(
                            views,
                            left_index as int,
                            right,
                        ) == Some(i as int)),
        {
            let ghost removed = pair_removes(views, left_index as int, right_index as int);
            let ghost before = to_remove@;
            if let (Some(left), Some(right)) = (&real_paths[left_index], &real_paths[right_index]) {
                if path_eq(left.as_str(), right.as_str()) {
                    to_remove.insert(right_index);
                } else if starts_with(left.as_str(), right.as_str()) {
                    to_remove.insert(left_index);
                } else if starts_with(right.as_str(), left.as_str()) {
                    to_remove.insert(right_index);
                }
            }
            proof {
                assert(to_remove@ == match removed {
                    Some(i) => before.insert(i as usize),
                    None => before,
                });
                assert forall|i: usize|
                    to_remove@.contains(i) <==> (exists|left: int, right: int|
                        0 <= left < left_index && left < right < len && #[trigger] pair_removes(
                            views,
                            left,
                            right,
                        ) == Some(i as int)) || (exists|right: int|
                        left_index < right < right_index + 1 && #[trigger] pair_removes(
                            views,
                            left_index as int,
                            right,
                        ) == Some(i as int)) by {
                    if removed == Some(i as int) {
                        assert(pair_removes(views, left_index as int, right_index as int) == Some(i as int));
                    }
                }
            }
        }
    }
    proof {
        assert forall|i: usize| to_remove@.contains(i) <==> is_overlapping(views, i as int) by {
            if is_overlapping(views, i as int) {
                let (left, right) = choose|left: int, right: int|
                    0 <= left < right < views.len() && #[trigger] pair_removes(views, left, right)
                        == Some(i as int);
                assert(pair_removes(views, left, right) == Some(i as int));
            }
        }
    }
    to_remove
}

/// Removing nothing keeps every item.
pub proof fn lemma_without_no_indices<T>(items: Seq<T>)
    ensures
        without_indices(items, Set::empty()) == items,
    decreases items.len(),
{
    if items.len() > 0 {
        lemma_without_no_indices(items.drop_last());
        assert(without_indices(items.drop_last(), Set::empty()).push(items.last()) =~= items);
    }
}

/// Remove elements from a vector by indices.
///
/// Positions at or past the end are ignored, except that a lone position
/// past the end is refused, as removing it would panic.
pub fn remove_items_from_vec_by_indices<Item>(vec: &mut Vec<Item>, indices: &HashSet<usize>)
    requires
        indices@.len() == 1 ==> forall|i: usize| #[trigger] indices@.contains(i) ==> i < old(vec)@.len(),
    ensures
        final(vec)@ == without_indices(old(vec)@, indices@),
{
    // Optimization: If there is no element to remove then there is nothing to do.
    if indices.is_empty() {
        proof {
            assert(indices@ =~= Set::empty());
            lemma_without_no_indices(vec@);
        }
        return;
    }
    let mut items: Vec<Item> = Vec::new();
    std::mem::swap(&mut items, vec);
    let ghost old_items = items@;
    let total = items.len();
    assert(old_items.len() == total);
    let mut kept: Vec<Item> = Vec::new();
    let mut index: usize = 0;
    for item in it: items.into_iter()
        invariant
            it.seq() == old_items,
            old_items.len() <= usize::MAX,
            index == it.index(),
            kept@ == without_indices(old_items.take(index as int), indices@),
    {
        proof {
            assert(old_items.take(index + 1).drop_last() =~= old_items.take(index as int));
        }
        if !indices.contains(&index) {
            kept.push(item);
        }
        index = index + 1;
    }
    proof {
        assert(old_items.take(old_items.len() as int) =~= old_items);
    }
    *vec = kept;
}

/// Find overlapping paths in a list of arguments to remove and return their indices.
///
/// Prefer keeping the containing tree over the subtree (returning the index of the subtree).
///
/// Prefer keeping the first instance of the path over the later instances (returning the indices of
/// the later instances).
///
/// Only real directories are resolved; whatever `Sys` answers, the result is
/// what [`indices_to_remove`] makes of the answers.
pub fn find_overlapping_paths_to_remove<Sys>(arguments: &[Sys::Argument]) -> (to_remove: HashSet<usize>) where
    Sys: CanonicalizeArgument + IsRealDir,

    ensures
        exists|real_paths: Seq<Option<Seq<char>>>|
            resolved_arguments::<Sys>(arguments@, real_paths) && forall|i: usize|
                to_remove@.contains(i) <==> is_overlapping(real_paths, i as int),
{
    let mut real_paths: Vec<Option<String>> = Vec::new();
    let len = arguments.len();
    for i in 0..len
        invariant
            len == arguments@.len(),
            real_paths@.len() == i,
            forall|k: int|
                0 <= k < i ==> #[trigger] resolved_argument::<Sys>(
                    arguments@[k],
                    path_text(real_paths@[k]),
                ),
    {
        let argument = &arguments[i];
        let is_dir = Sys::is_real_dir(argument);
        proof {
            assert(call_ensures(Sys::is_real_dir, (argument,), is_dir));
        }
        let real_path = if is_dir {
            let canonical = Sys::canonicalize(argument);
            proof {
                assert(call_ensures(Sys::canonicalize, (argument,), canonical));
            }
            canonical
        } else {
            None
        };
        proof {
            assert(resolved_argument::<Sys>(arguments@[i as int], path_text(real_path)));
        }
        real_paths.push(real_path);
    }
    let to_remove = indices_to_remove(real_paths.as_slice());
    proof {
        let views = path_views(real_paths@);
        assert(views.len() == arguments@.len());
        assert forall|k: int| 0 <= k < arguments@.len() implies #[trigger] resolved_argument::<Sys>(
            arguments@[k],
            views[k],
        ) by {
            assert(views[k] == path_text(real_paths@[k]));
        }
        assert(resolved_arguments::<Sys>(arguments@, views));
    }
    to_remove
}

/// Hardlinks deduplication doesn't work properly if there are more than 1 paths pointing to
/// the same tree or if a path points to a subtree of another path. Therefore, we must find
/// and remove such overlapping paths before they cause problems.
pub fn remove_overlapping_paths<Sys>(arguments: &mut Vec<Sys::Argument>) where
    Sys: CanonicalizeArgument + IsRealDir,

    ensures
        exists|real_paths: Seq<Option<Seq<char>>>|
            resolved_arguments::<Sys>(old(arguments)@, real_paths) && final(arguments)@ == without_indices(
                old(arguments)@,
                Set::new(|i: usize| is_overlapping(real_paths, i as int)),
            ),
{
    let to_remove = find_overlapping_paths_to_remove::<Sys>(arguments.as_slice());
    proof {
        let real_paths = choose|real_paths: Seq<Option<Seq<char>>>|
            resolved_arguments::<Sys>(arguments@, real_paths) && forall|i: usize|
                to_remove@.contains(i) <==> is_overlapping(real_paths, i as int);
        assert(to_remove@ =~= Set::new(|i: usize| is_overlapping(real_paths, i as int)));
        assert forall|i: usize| #[trigger] to_remove@.contains(i) implies i < arguments@.len() by {
            let (left, right) = choose|left: int, right: int|
                0 <= left < right < real_paths.len() && #[trigger] pair_removes(real_paths, left, right)
                    == Some(i as int);
        }
    }
    remove_items_from_vec_by_indices(arguments, &to_remove);
}

} // verus!
