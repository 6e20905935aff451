use crate::path_ops::{path_starts_with, starts_with};
use vstd::prelude::*;
use vstd::utf8::encode_utf8;

verus! {

/// The length of a path in bytes, as `str::len` reports it.
pub open spec fn byte_len(path: Seq<char>) -> usize {
    encode_utf8(path).len() as usize
}

/// The position of the mount point of `path` among `mount_points`: of those
/// that `path` lies in, the longest in bytes, and the last of equally long
/// ones (mount points can be nested in each other).
pub open spec fn mount_point_index(path: Seq<char>, mount_points: Seq<Seq<char>>) -> Option<int>
    decreases mount_points.len(),
{
    if mount_points.len() == 0 {
        None
    } else {
        let last = mount_points.len() - 1;
        let before = mount_point_index(path, mount_points.drop_last());
        if path_starts_with(path, mount_points[last]) && match before {
            None => true,
            Some(j) => byte_len(mount_points[last]) >= byte_len(mount_points[j]),
        } {
            Some(last)
        } else {
            before
        }
    }
}

/// The position found is that of a mount point that contains `path`.
pub proof fn lemma_mount_point_index_contains(path: Seq<char>, mount_points: Seq<Seq<char>>)
    ensures
        mount_point_index(path, mount_points) matches Some(i) ==> 0 <= i < mount_points.len()
            && path_starts_with(path, mount_points[i]),
        mount_point_index(path, mount_points) is None ==> forall|i: int|
            0 <= i < mount_points.len() ==> !path_starts_with(path, #[trigger] mount_points[i]),
    decreases mount_points.len(),
{
    if mount_points.len() > 0 {
        let rest = mount_points.drop_last();
        lemma_mount_point_index_contains(path, rest);
        assert forall|i: int| 0 <= i < rest.len() implies rest[i] == mount_points[i] by {}
    }
}

/// The mount point found is the longest in bytes of those that contain
/// `path`, whatever the order of the list (mount points can be nested in
/// each other).
pub proof fn lemma_mount_point_is_longest(path: Seq<char>, mount_points: Seq<Seq<char>>)
    ensures
        mount_point_index(path, mount_points) matches Some(found) ==> forall|i: int|
            0 <= i < mount_points.len() && path_starts_with(path, #[trigger] mount_points[i])
                ==> byte_len(mount_points[found]) >= byte_len(mount_points[i]),
    decreases mount_points.len(),
{
    if mount_points.len() > 0 {
        let rest = mount_points.drop_last();
        lemma_mount_point_is_longest(path, rest);
        lemma_mount_point_index_contains(path, rest);
        assert forall|i: int| 0 <= i < rest.len() implies rest[i] == mount_points[i] by {}
    }
}

/// The views of a sequence of strings.
pub open spec fn string_views(strings: Seq<String>) -> Seq<Seq<char>> {
    strings.map_values(|s: String| s@)
}

/// Find the mount point of `path` among `mount_points`.
pub fn find_mount_point<'a>(path: &str, mount_points: &'a [String]) -> (mount_point: Option<
    &'a str,
>)
    ensures
        match mount_point_index(path@, string_views(mount_points@)) {
            None => mount_point is None,
            Some(i) => mount_point matches Some(m) && m@ == mount_points@[i]@,
        },
        mount_point matches Some(m) ==> path_starts_with(path@, m@) && forall|i: int|
            0 <= i < mount_points@.len() && path_starts_with(path@, #[trigger] mount_points@[i]@)
                ==> byte_len(m@) >= byte_len(mount_points@[i]@),
        mount_point is None ==> forall|i: int|
            0 <= i < mount_points@.len() ==> !path_starts_with(path@, #[trigger] mount_points@[i]@),
{
    let ghost views = string_views(mount_points@);
    let mut best: Option<usize> = None;
    let mut best_len: usize = 0;
    let len = mount_points.len();
    for i in 0..len
        invariant
            len == mount_points@.len(),
            views == string_views(mount_points@),
            match mount_point_index(path@, views.take(i as int)) {
                None => best is None,
                Some(j) => best == Some(j as usize) && best_len == byte_len(views[j]),
            },
    {
        proof {
            assert(views.take(i + 1).drop_last() =~= views.take(i as int));
            lemma_mount_point_index_contains(path@, views.take(i as int));
        }
        let candidate = mount_points[i].as_str();
        let candidate_len = candidate.len();
        proof {
            assert(views[i as int] == candidate@);
            assert(views.take(i + 1)[i as int] == candidate@);
            assert(candidate_len == byte_len(views[i as int]));
            lemma_mount_point_index_contains(path@, views.take(i + 1));
        }
        if starts_with(path, candidate) {
            let better = match best {
                None => true,
                Some(_) => candidate_len >= best_len,
            };
            if better {
                best = Some(i);
                best_len = candidate_len;
            }
        }
    }
    proof {
        assert(views.take(len as int) =~= views);
        lemma_mount_point_index_contains(path@, views);
        lemma_mount_point_is_longest(path@, views);
    }
    match best {
        None => {
            proof {
                assert forall|k: int| 0 <= k < len implies !path_starts_with(
                    path@,
                    #[trigger] mount_points@[k]@,
                ) by {
                    assert(views[k] == mount_points@[k]@);
                }
            }
            None
        },
        Some(i) => {
            let found = mount_points[i].as_str();
            proof {
                assert(views[i as int] == found@);
                assert forall|k: int|
                    0 <= k < len && path_starts_with(path@, #[trigger] mount_points@[k]@) implies byte_len(
                    found@,
                ) >= byte_len(mount_points@[k]@) by {
                    assert(views[k] == mount_points@[k]@);
                }
            }
            Some(found)
        },
    }
}

} // verus!
