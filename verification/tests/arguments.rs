use parallel_disk_usage::app::deduplicate_arguments::{
    deduplicate_arguments, find_argument_duplications_to_remove,
    remove_items_from_vec_by_indices as remove_items_by_indices,
};
use parallel_disk_usage::app::overlapping_arguments::{
    find_overlapping_paths_to_remove, indices_to_remove, remove_items_from_vec_by_indices,
    remove_overlapping_paths, ArgumentSource, CanonicalizeArgument, IsRealDir,
};
use std::collections::HashSet;
use std::path::{Component, Path, PathBuf};

const MOCKED_CURRENT_DIR: &str = "/home/user/current-dir";

const MOCKED_SYMLINKS: &[(&str, &str)] = &[
    ("/home/user/current-dir/link-to-current-dir", "."),
    ("/home/user/current-dir/link-to-parent-dir", ".."),
    ("/home/user/current-dir/link-to-root", "/"),
    ("/home/user/current-dir/link-to-bin", "/usr/bin"),
    ("/home/user/current-dir/link-to-foo", "foo"),
    ("/home/user/current-dir/link-to-bar", "bar"),
    ("/home/user/current-dir/link-to-012", "0/1/2"),
];

/// Lexically resolve `.` and `..` in a path.
fn normalize(path: &Path) -> PathBuf {
    let mut result = PathBuf::new();
    for component in path.components() {
        match component {
            Component::CurDir => {}
            Component::ParentDir => {
                result.pop();
            }
            other => result.push(other.as_os_str()),
        }
    }
    result
}

fn resolve_symlink(absolute_path: PathBuf) -> PathBuf {
    assert!(absolute_path.is_absolute());
    for &(link_path, link_target) in MOCKED_SYMLINKS {
        let link_path = PathBuf::from(link_path);
        let parent = link_path.parent().expect("parent of a link");
        if let Ok(suffix) = absolute_path.strip_prefix(&link_path) {
            return resolve_symlink(normalize(&parent.join(link_target).join(suffix)));
        }
    }
    absolute_path
}

struct MockedApi;

impl ArgumentSource for MockedApi {
    type Argument = &'static str;
}

impl CanonicalizeArgument for MockedApi {
    fn canonicalize(path: &Self::Argument) -> Option<String> {
        let resolved = resolve_symlink(normalize(&PathBuf::from(MOCKED_CURRENT_DIR).join(path)));
        resolved.to_str().map(|text| text.to_string())
    }
}

impl IsRealDir for MockedApi {
    fn is_real_dir(path: &Self::Argument) -> bool {
        let path = PathBuf::from(MOCKED_CURRENT_DIR).join(path);
        MOCKED_SYMLINKS
            .iter()
            .all(|(link, _)| normalize(&PathBuf::from(link)) != path)
    }
}

fn hashset(items: &[usize]) -> HashSet<usize> {
    items.iter().copied().collect()
}

#[test]
fn test_remove_overlapping_paths_remove_nothing() {
    let given = vec!["foo", "bar", "abc/def", "0/1/2"];
    let mut actual = given.clone();
    remove_overlapping_paths::<MockedApi>(&mut actual);
    let expected = given;
    assert_eq!(actual, expected);
}

#[test]
fn test_remove_overlapping_paths_remove_duplicated_arguments() {
    let given = vec!["foo", "bar", "abc/def", "foo", "0/1/2", "./bar", "./abc/./def"];
    let mut actual = given.clone();
    remove_overlapping_paths::<MockedApi>(&mut actual);
    let expected = vec!["foo", "bar", "abc/def", "0/1/2"];
    assert_eq!(actual, expected);
    let given = vec!["foo", "./bar", "bar", "./abc/./def", "abc/def", "foo", "0/1/2"];
    let mut actual = given.clone();
    remove_overlapping_paths::<MockedApi>(&mut actual);
    let expected = vec!["foo", "./bar", "./abc/./def", "0/1/2"];
    assert_eq!(actual, expected);
}

#[test]
fn remove_overlapping_sub_paths() {
    let given = vec!["foo/child", "foo", "bar", "abc/def", "0/1/2", "bar/child", "0/1/2/3"];
    let mut actual = given.clone();
    remove_overlapping_paths::<MockedApi>(&mut actual);
    let expected = vec!["foo", "bar", "abc/def", "0/1/2"];
    assert_eq!(actual, expected);
}

#[test]
fn test_remove_overlapping_paths_remove_all_except_current_dir() {
    let given = vec!["foo", "bar", ".", "abc/def", "0/1/2"];
    let mut actual = given.clone();
    remove_overlapping_paths::<MockedApi>(&mut actual);
    let expected = vec!["."];
    assert_eq!(actual, expected);
    let given = vec!["foo", "bar", ".", "abc/def", "0/1/2", MOCKED_CURRENT_DIR];
    let mut actual = given.clone();
    remove_overlapping_paths::<MockedApi>(&mut actual);
    let expected = vec!["."];
    assert_eq!(actual, expected);
    let given = vec!["foo", "bar", MOCKED_CURRENT_DIR, ".", "abc/def", "0/1/2"];
    let mut actual = given.clone();
    remove_overlapping_paths::<MockedApi>(&mut actual);
    let expected = vec![MOCKED_CURRENT_DIR];
    assert_eq!(actual, expected);
}

#[test]
fn test_remove_overlapping_paths_remove_all_except_parent_dir() {
    let given = vec!["foo", "bar", "..", "abc/def", ".", "0/1/2"];
    let mut actual = given.clone();
    remove_overlapping_paths::<MockedApi>(&mut actual);
    let expected = vec![".."];
    assert_eq!(actual, expected);
    let given = vec!["foo", "/home/user", "bar", "..", "abc/def", ".", "0/1/2"];
    let mut actual = given.clone();
    remove_overlapping_paths::<MockedApi>(&mut actual);
    let expected = vec!["/home/user"];
    assert_eq!(actual, expected);
}

#[test]
fn remove_overlapping_real_paths() {
    let given = vec!["foo", "bar", "abc/def", "link-to-foo/child", "link-to-bar/a/b/c", "0/1/2"];
    let mut actual = given.clone();
    remove_overlapping_paths::<MockedApi>(&mut actual);
    let expected = vec!["foo", "bar", "abc/def", "0/1/2"];
    assert_eq!(actual, expected);
    let given = vec!["link-to-foo/child", "link-to-bar/a/b/c", "foo", "bar", "abc/def", "0/1/2"];
    let mut actual = given.clone();
    remove_overlapping_paths::<MockedApi>(&mut actual);
    let expected = vec!["foo", "bar", "abc/def", "0/1/2"];
    assert_eq!(actual, expected);
    let given = vec!["link-to-current-dir/foo", "foo", "bar", "abc/def", "link-to-current-dir/bar", "0/1/2"];
    let mut actual = given.clone();
    remove_overlapping_paths::<MockedApi>(&mut actual);
    let expected = vec!["link-to-current-dir/foo", "bar", "abc/def", "0/1/2"];
    assert_eq!(actual, expected);
}

#[test]
fn test_remove_overlapping_paths_do_not_remove_symlinks() {
    let given = vec!["foo", "bar", "abc/def", "link-to-foo", "link-to-bar", "0/1/2"];
    let mut actual = given.clone();
    remove_overlapping_paths::<MockedApi>(&mut actual);
    let expected = given;
    assert_eq!(actual, expected);
    let given = vec!["foo/child", "bar", "abc/def", "link-to-foo", "link-to-bar", "0/1/2"];
    let mut actual = given.clone();
    remove_overlapping_paths::<MockedApi>(&mut actual);
    let expected = given;
    assert_eq!(actual, expected);
}

#[test]
fn find_nothing_to_remove() {
    let given = vec!["foo", "bar", "abc/def", "0/1/2"];
    let mut actual = given.clone();
    deduplicate_arguments::<MockedApi>(&mut actual);
    let expected = given;
    assert_eq!(actual, expected);
}

#[test]
fn deduplicate_arguments_remove_duplicated_arguments() {
    let given = vec!["foo", "bar", "abc/def", "foo", "0/1/2", "./bar", "./abc/./def"];
    let mut actual = given.clone();
    deduplicate_arguments::<MockedApi>(&mut actual);
    let expected = vec!["foo", "bar", "abc/def", "0/1/2"];
    assert_eq!(actual, expected);
    let given = vec!["foo", "./bar", "bar", "./abc/./def", "abc/def", "foo", "0/1/2"];
    let mut actual = given.clone();
    deduplicate_arguments::<MockedApi>(&mut actual);
    let expected = vec!["foo", "./bar", "./abc/./def", "0/1/2"];
    assert_eq!(actual, expected);
}

#[test]
fn remove_duplicated_sub_paths() {
    let given = vec!["foo/child", "foo", "bar", "abc/def", "0/1/2", "bar/child", "0/1/2/3"];
    let mut actual = given.clone();
    deduplicate_arguments::<MockedApi>(&mut actual);
    let expected = vec!["foo", "bar", "abc/def", "0/1/2"];
    assert_eq!(actual, expected);
}

#[test]
fn deduplicate_arguments_remove_all_except_current_dir() {
    let given = vec!["foo", "bar", ".", "abc/def", "0/1/2"];
    let mut actual = given.clone();
    deduplicate_arguments::<MockedApi>(&mut actual);
    let expected = vec!["."];
    assert_eq!(actual, expected);
    let given = vec!["foo", "bar", ".", "abc/def", "0/1/2", MOCKED_CURRENT_DIR];
    let mut actual = given.clone();
    deduplicate_arguments::<MockedApi>(&mut actual);
    let expected = vec!["."];
    assert_eq!(actual, expected);
    let given = vec!["foo", "bar", MOCKED_CURRENT_DIR, ".", "abc/def", "0/1/2"];
    let mut actual = given.clone();
    deduplicate_arguments::<MockedApi>(&mut actual);
    let expected = vec![MOCKED_CURRENT_DIR];
    assert_eq!(actual, expected);
}

#[test]
fn deduplicate_arguments_remove_all_except_parent_dir() {
    let given = vec!["foo", "bar", "..", "abc/def", ".", "0/1/2"];
    let mut actual = given.clone();
    deduplicate_arguments::<MockedApi>(&mut actual);
    let expected = vec![".."];
    assert_eq!(actual, expected);
    let given = vec!["foo", "/home/user", "bar", "..", "abc/def", ".", "0/1/2"];
    let mut actual = given.clone();
    deduplicate_arguments::<MockedApi>(&mut actual);
    let expected = vec!["/home/user"];
    assert_eq!(actual, expected);
}

#[test]
fn remove_duplicated_real_paths() {
    let given = vec!["foo", "bar", "abc/def", "link-to-foo/child", "link-to-bar/a/b/c", "0/1/2"];
    let mut actual = given.clone();
    deduplicate_arguments::<MockedApi>(&mut actual);
    let expected = vec!["foo", "bar", "abc/def", "0/1/2"];
    assert_eq!(actual, expected);
    let given = vec!["link-to-foo/child", "link-to-bar/a/b/c", "foo", "bar", "abc/def", "0/1/2"];
    let mut actual = given.clone();
    deduplicate_arguments::<MockedApi>(&mut actual);
    let expected = vec!["foo", "bar", "abc/def", "0/1/2"];
    assert_eq!(actual, expected);
    let given = vec!["link-to-current-dir/foo", "foo", "bar", "abc/def", "link-to-current-dir/bar", "0/1/2"];
    let mut actual = given.clone();
    deduplicate_arguments::<MockedApi>(&mut actual);
    let expected = vec!["link-to-current-dir/foo", "bar", "abc/def", "0/1/2"];
    assert_eq!(actual, expected);
}

#[test]
fn deduplicate_arguments_do_not_remove_symlinks() {
    let given = vec!["foo", "bar", "abc/def", "link-to-foo", "link-to-bar", "0/1/2"];
    let mut actual = given.clone();
    deduplicate_arguments::<MockedApi>(&mut actual);
    let expected = given;
    assert_eq!(actual, expected);
    let given = vec!["foo/child", "bar", "abc/def", "link-to-foo", "link-to-bar", "0/1/2"];
    let mut actual = given.clone();
    deduplicate_arguments::<MockedApi>(&mut actual);
    let expected = given;
    assert_eq!(actual, expected);
}

#[test]
fn test_remove_items_from_vec_by_indices_remove_nothing() {
    let given = vec![31, 54, 22, 81, 67, 45, 52, 20, 85, 66, 27, 84];
    let mut modified = given.clone();
    remove_items_from_vec_by_indices(&mut modified, &HashSet::new());
    assert_eq!(modified, given);
}

#[test]
fn test_remove_items_from_vec_by_indices_remove_single() {
    let given = vec![31, 54, 22, 81, 67, 45, 52, 20, 85, 66, 27, 84];
    let mut modified = given.clone();
    remove_items_from_vec_by_indices(&mut modified, &hashset(&[3]));
    assert_eq!(&modified[..3], &given[..3]);
    assert_eq!(&modified[3..], &given[4..]);
}

#[test]
fn test_remove_items_from_vec_by_indices_remove_multiple() {
    let given = vec![31, 54, 22, 81, 67, 45, 52, 20, 85, 66, 27, 84];
    let mut modified = given.clone();
    remove_items_from_vec_by_indices(&mut modified, &hashset(&[3, 4, 5, 7]));
    assert_eq!(&modified[..3], &given[..3]);
    assert_eq!(&modified[3..4], &given[6..7]);
    assert_eq!(&modified[4..], &given[8..]);
}

#[test]
fn deduplicate_arguments_remove_nothing() {
    let given = vec![31, 54, 22, 81, 67, 45, 52, 20, 85, 66, 27, 84];
    let mut modified = given.clone();
    remove_items_by_indices(&mut modified, &HashSet::new());
    assert_eq!(modified, given);
}

#[test]
fn deduplicate_arguments_remove_single() {
    let given = vec![31, 54, 22, 81, 67, 45, 52, 20, 85, 66, 27, 84];
    let mut modified = given.clone();
    remove_items_by_indices(&mut modified, &hashset(&[3]));
    assert_eq!(&modified[..3], &given[..3]);
    assert_eq!(&modified[3..], &given[4..]);
}

#[test]
fn deduplicate_arguments_remove_multiple() {
    let given = vec![31, 54, 22, 81, 67, 45, 52, 20, 85, 66, 27, 84];
    let mut modified = given.clone();
    remove_items_by_indices(&mut modified, &hashset(&[3, 4, 5, 7]));
    assert_eq!(&modified[..3], &given[..3]);
    assert_eq!(&modified[3..4], &given[6..7]);
    assert_eq!(&modified[4..], &given[8..]);
}

#[test]
fn indices_to_remove_of_resolved_paths() {
    let real_paths = vec![
        Some("/a".to_string()),
        Some("/a/b".to_string()),
        None,
        Some("/a".to_string()),
        Some("/c".to_string()),
    ];
    let to_remove = indices_to_remove(&real_paths);
    assert_eq!(to_remove, hashset(&[1, 3]));
}

#[test]
fn find_overlapping_paths_returns_indices() {
    let arguments = vec!["foo", "foo/child", "bar", "./foo"];
    let to_remove = find_overlapping_paths_to_remove::<MockedApi>(&arguments);
    assert_eq!(to_remove, hashset(&[1, 3]));
}

#[test]
fn find_argument_duplications_returns_indices() {
    let arguments = vec!["foo/child", "foo", "bar", "link-to-foo", "./bar"];
    let to_remove = find_argument_duplications_to_remove::<MockedApi>(&arguments);
    assert_eq!(to_remove, hashset(&[0, 4]));
}
