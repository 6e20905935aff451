//! What the sub program decides, apart from reading the filesystem and
//! printing.
pub mod size_order;

use crate::data_tree::hardlink::info_view;
use crate::data_tree::{total_size, DataTree};
use size_order::{larger_first_order, sort_larger_first};
use vstd::prelude::*;

verus! {

/// Value to pass to the sub program to decide how much details should be
/// put in the output JSON object.
#[derive(Debug, Clone, Copy, PartialEq, Eq)]
pub struct JsonOutputParam {
    /// Whether to include `.shared.details` in the JSON output.
    pub shared_details: bool,
    /// Whether to include `.shared.summary` in the JSON output.
    pub shared_summary: bool,
}

impl JsonOutputParam {
    /// Infer from the CLI flags.
    pub fn from_cli_flags(output_json: bool, omit_shared_details: bool, omit_shared_summary: bool) -> (param: Option<Self>)
        ensures
            param == (if output_json {
                Some(
                    JsonOutputParam {
                        shared_details: !omit_shared_details,
                        shared_summary: !omit_shared_summary,
                    },
                )
            } else {
                None
            }),
    {
        if output_json {
            Some(
                JsonOutputParam {
                    shared_details: !omit_shared_details,
                    shared_summary: !omit_shared_summary,
                },
            )
        } else {
            None
        }
    }
}

/// The color of a name in the chart, by the kind of its entry.
#[derive(Debug, Clone, Copy, PartialEq, Eq)]
pub enum Color {
    /// A regular file.
    Normal,
    /// A directory.
    Directory,
    /// An executable file.
    Executable,
    /// A symbolic link.
    Symlink,
}

/// The color of an entry: a symbolic link before a directory, a directory
/// before an executable file; anything else is normal.
pub fn file_color(is_symlink: bool, is_dir: bool, is_executable: bool) -> (color: Color)
    ensures
        color == (if is_symlink {
            Color::Symlink
        } else if is_dir {
            Color::Directory
        } else if is_executable {
            Color::Executable
        } else {
            Color::Normal
        }),
{
    if is_symlink {
        Color::Symlink
    } else if is_dir {
        Color::Directory
    } else if is_executable {
        Color::Executable
    } else {
        Color::Normal
    }
}

/// Whether the permission bits of an entry, where its metadata could be
/// read, let anyone execute it.
pub fn is_executable(mode: Option<u32>) -> (executable: bool)
    ensures
        executable == (mode matches Some(bits) && bits & 0o111u32 != 0),
{
    match mode {
        Some(bits) => bits & 0o111u32 != 0,
        None => false,
    }
}

/// The views of a sequence of vectors.
pub open spec fn vec_views<T>(vectors: Seq<Vec<T>>) -> Seq<Seq<T>> {
    vectors.map_values(|vector: Vec<T>| vector@)
}

/// A copy of `strings`.
fn clone_strings(strings: &[String]) -> (copy: Vec<String>)
    ensures
        copy@ == strings@,
{
    let mut copy: Vec<String> = Vec::new();
    let len = strings.len();
    for i in 0..len
        invariant
            len == strings@.len(),
            copy@ == strings@.take(i as int),
    {
        copy.push(strings[i].clone());
        proof {
            assert(strings@.take(i + 1) =~= strings@.take(i as int).push(strings@[i as int]));
        }
    }
    proof {
        assert(strings@.take(len as int) =~= strings@);
    }
    copy
}

/// Appends the path of each leaf of `tree`, after the names in `stack`, to
/// `paths`, from left to right.
fn collect_leaf_paths(tree: &DataTree<String>, stack: &mut Vec<String>, paths: &mut Vec<Vec<String>>)
    ensures
        final(stack)@ == old(stack)@,
        vec_views(final(paths)@) == vec_views(old(paths)@) + tree.leaf_paths().map_values(
            |path: Seq<String>| old(stack)@ + path,
        ),
    decreases tree,
{
    proof {
        tree.lemma_leaf_paths_unfold();
    }
    let ghost outer = stack@;
    let ghost start = vec_views(paths@);
    let name = tree.name();
    stack.push(name.clone());
    let ghost inner = stack@;
    let children = tree.children();
    if children.len() == 0 {
        let path = clone_strings(stack.as_slice());
        paths.push(path);
        proof {
            assert(tree.leaf_paths() == seq![seq![tree.spec_name()]]);
            assert(inner =~= outer + seq![tree.spec_name()]);
            assert(tree.leaf_paths().map_values(|path: Seq<String>| outer + path) =~= seq![inner]);
            assert(vec_views(paths@) =~= start + seq![inner]);
        }
    } else {
        let len = children.len();
        for k in 0..len
            invariant
                len == children@.len(),
                children@ == tree.spec_children(),
                stack@ == inner,
                inner == outer.push(tree.spec_name()),
                vec_views(paths@) == start + tree.leaf_paths_of_children(k as nat).map_values(
                    |path: Seq<String>| inner + path,
                ),
        {
            proof {
                tree.lemma_child_decreases(k as int);
                tree.lemma_leaf_paths_of_children_step((k + 1) as nat);
            }
            let ghost before = vec_views(paths@);
            collect_leaf_paths(&children[k], stack, paths);
            proof {
                let done = tree.leaf_paths_of_children(k as nat);
                let added = children@[k as int].leaf_paths();
                assert((done + added).map_values(|path: Seq<String>| inner + path) =~= done.map_values(
                    |path: Seq<String>| inner + path,
                ) + added.map_values(|path: Seq<String>| inner + path));
                assert(vec_views(paths@) =~= start + tree.leaf_paths_of_children((k + 1) as nat).map_values(
                    |path: Seq<String>| inner + path,
                ));
            }
        }
        proof {
            let all = tree.leaf_paths_of_children(len as nat);
            let prefixed = all.map_values(|path: Seq<String>| seq![tree.spec_name()] + path);
            assert forall|i: int| 0 <= i < all.len() implies (inner + #[trigger] all[i]) == outer + prefixed[i] by {
                assert(inner + all[i] =~= outer + (seq![tree.spec_name()] + all[i]));
            }
            assert(all.map_values(|path: Seq<String>| inner + path) =~= prefixed.map_values(
                |path: Seq<String>| outer + path,
            ));
        }
    }
    stack.pop();
    proof {
        assert(stack@ =~= outer);
    }
}

/// The paths of names from the root down to each leaf of `tree`, from left
/// to right.
pub fn leaf_paths(tree: &DataTree<String>) -> (paths: Vec<Vec<String>>)
    ensures
        vec_views(paths@) == tree.leaf_paths(),
{
    let mut stack: Vec<String> = Vec::new();
    let mut paths: Vec<Vec<String>> = Vec::new();
    collect_leaf_paths(tree, &mut stack, &mut paths);
    proof {
        assert forall|i: int| 0 <= i < tree.leaf_paths().len() implies (Seq::<String>::empty() + #[trigger] tree.leaf_paths()[i]) == tree.leaf_paths()[i] by {
            assert(Seq::<String>::empty() + tree.leaf_paths()[i] =~= tree.leaf_paths()[i]);
        }
        assert(vec_views(paths@) =~= tree.leaf_paths());
    }
    paths
}

/// Each leaf of `tree` that the chart colors: the names that key it in the
/// chart, then the path of its entry on disk. Where the tree joins several
/// arguments under one root of no entry of its own, the root's name keys
/// the leaves but is not on their paths, and a root without children has
/// none to color.
pub open spec fn coloring_targets_of(tree: DataTree<String>, only_one_arg: bool) -> Seq<
    (Seq<String>, Seq<String>),
> {
    if only_one_arg {
        tree.leaf_paths().map_values(|path: Seq<String>| (path, path))
    } else if tree.spec_children().len() == 0 {
        seq![]
    } else {
        tree.leaf_paths().map_values(|path: Seq<String>| (path, path.drop_first()))
    }
}

/// A copy of the strings of `strings` after the first.
fn clone_strings_after_first(strings: &[String]) -> (copy: Vec<String>)
    requires
        strings@.len() > 0,
    ensures
        copy@ == strings@.drop_first(),
{
    let mut copy: Vec<String> = Vec::new();
    let len = strings.len();
    for i in 1..len
        invariant
            len == strings@.len(),
            copy@ == strings@.subrange(1, i as int),
    {
        copy.push(strings[i].clone());
        proof {
            assert(strings@.subrange(1, i + 1) =~= strings@.subrange(1, i as int).push(strings@[i as int]));
        }
    }
    proof {
        assert(strings@.subrange(1, len as int) =~= strings@.drop_first());
    }
    copy
}

/// The names that key each leaf of `tree` in the chart, and the path of its
/// entry on disk, from left to right.
pub fn coloring_targets(tree: &DataTree<String>, only_one_arg: bool) -> (targets: Vec<(Vec<String>, Vec<String>)>)
    ensures
        targets@.map_values(|target: (Vec<String>, Vec<String>)| (target.0@, target.1@))
            == coloring_targets_of(*tree, only_one_arg),
{
    let mut targets: Vec<(Vec<String>, Vec<String>)> = Vec::new();
    if !only_one_arg && tree.children().len() == 0 {
        proof {
            assert(targets@.map_values(|target: (Vec<String>, Vec<String>)| (target.0@, target.1@))
                =~= coloring_targets_of(*tree, only_one_arg));
        }
        return targets;
    }
    let paths = leaf_paths(tree);
    let ghost all = tree.leaf_paths();
    proof {
        tree.lemma_leaf_paths_unfold();
        assert forall|i: int| 0 <= i < all.len() implies (#[trigger] all[i]).len() > 0 by {
            if tree.spec_children().len() > 0 {
                let inner = tree.leaf_paths_of_children(tree.spec_children().len());
                assert(all[i] == seq![tree.spec_name()] + inner[i]);
            }
        }
    }
    let len = paths.len();
    for i in 0..len
        invariant
            len == paths@.len(),
            vec_views(paths@) == all,
            all == tree.leaf_paths(),
            forall|j: int| 0 <= j < all.len() ==> (#[trigger] all[j]).len() > 0,
            only_one_arg || tree.spec_children().len() > 0,
            targets@.map_values(|target: (Vec<String>, Vec<String>)| (target.0@, target.1@))
                == coloring_targets_of(*tree, only_one_arg).take(i as int),
    {
        let path = &paths[i];
        assert(path@ == all[i as int]);
        let key = clone_strings(path.as_slice());
        let fs_path = if only_one_arg {
            clone_strings(path.as_slice())
        } else {
            clone_strings_after_first(path.as_slice())
        };
        let ghost before = targets@;
        targets.push((key, fs_path));
        proof {
            let expected = coloring_targets_of(*tree, only_one_arg);
            if only_one_arg {
                assert(expected[i as int] == (all[i as int], all[i as int]));
            } else {
                assert(expected[i as int] == (all[i as int], all[i as int].drop_first()));
            }
            let view_of = |target: (Vec<String>, Vec<String>)| (target.0@, target.1@);
            assert(targets@.map_values(view_of) =~= before.map_values(view_of).push(
                expected[i as int],
            ));
            assert(expected.take(i + 1) =~= expected.take(i as int).push(expected[i as int]));
        }
    }
    proof {
        assert(coloring_targets_of(*tree, only_one_arg).take(len as int) =~= coloring_targets_of(
            *tree,
            only_one_arg,
        ));
    }
    targets
}

/// The trees of the arguments joined into one: the tree of a single argument
/// as it is; the trees of several under a root named by the empty string, of
/// no size of its own, with the levels below `max_depth` cut off.
pub fn join_argument_trees(trees: Vec<DataTree<String>>, max_depth: u64) -> (joined: DataTree<String>)
    requires
        trees@.len() >= 1,
        max_depth >= 1,
        total_size(trees@) <= u64::MAX,
        forall|i: int| 0 <= i < trees@.len() ==> (#[trigger] trees@[i]).depth_fits(1),
    ensures
        trees@.len() == 1 ==> joined == trees@[0],
        trees@.len() > 1 ==> exists|root: DataTree<String>|
            {
                &&& root.spec_name()@ == Seq::<char>::empty()
                &&& root.spec_size() == total_size(trees@)
                &&& root.spec_children() == trees@
                &&& #[trigger] joined.keeps_levels(root, max_depth - 1)
            },
        (forall|i: int| 0 <= i < trees@.len() ==> (#[trigger] trees@[i]).wf()) ==> joined.wf(),
{
    if trees.len() == 1 {
        let mut trees = trees;
        let joined = trees.remove(0);
        return joined;
    }
    let ghost children = trees@;
    let root = DataTree::dir(String::new(), 0, trees);
    proof {
        root.lemma_depth_fits_node(0);
    }
    let ghost whole = root;
    let keep = |_tree: &DataTree<String>, depth: u64| -> (keep: bool)
        ensures
            keep == (depth + 1 < max_depth),
        { depth < max_depth - 1 };
    let joined = root.into_par_retained(keep);
    proof {
        assert forall|tree: &DataTree<String>, d: u64, kept: bool|
            #[trigger] keep.ensures((tree, d), kept) implies kept == (d + 1 < max_depth) by {
        }
        joined.lemma_retained_levels(whole, keep, 0, max_depth as int);
        assert(joined.keeps_levels(whole, max_depth - 1));
    }
    joined
}

/// The arguments to measure: those given, or the current directory `.`
/// where none is.
pub fn argument_list(files: Vec<String>) -> (arguments: Vec<String>)
    ensures
        files@.len() > 0 ==> arguments@ == files@,
        files@.len() == 0 ==> arguments@.len() == 1 && arguments@[0]@ == "."@,
{
    if files.len() > 0 {
        return files;
    }
    let mut arguments: Vec<String> = Vec::new();
    arguments.push(String::from_str("."));
    arguments
}

/// The last steps on the joined tree of the arguments: it is sorted, the
/// larger entries first, where `sort` asks for it; the sizes shared by the
/// hardlinks of `hardlink_info` are deducted; and the root of several
/// arguments is named `(total)`.
///
/// `None` where the deduction would take a size below zero.
pub fn finish_tree(
    tree: DataTree<String>,
    only_one_arg: bool,
    sort: bool,
    hardlink_info: &[(u64, Vec<String>)],
) -> (finished: Option<DataTree<String>>)
    ensures
        exists|sorted: DataTree<String>|
            {
                &&& (if sort {
                    sorted.sorted_from(tree, larger_first_order())
                } else {
                    sorted == tree
                })
                &&& (finished is Some <==> sorted.deduplication_fits(info_view(hardlink_info@)))
                &&& finished matches Some(t) ==> exists|deduplicated: DataTree<String>|
                    {
                        &&& deduplicated.deduplicated_from(sorted, info_view(hardlink_info@))
                        &&& t.spec_size() == deduplicated.spec_size()
                        &&& t.spec_children() == deduplicated.spec_children()
                        &&& if only_one_arg {
                            t.spec_name() == deduplicated.spec_name()
                        } else {
                            t.spec_name()@ == "(total)"@
                        }
                    }
            },
{
    let ghost original = tree;
    let mut tree = tree;
    if sort {
        sort_larger_first(&mut tree);
    }
    let ghost sorted = tree;
    let ghost info = info_view(hardlink_info@);
    assert(if sort {
        sorted.sorted_from(original, larger_first_order())
    } else {
        sorted == original
    });
    if !tree.check_deduplication_fits(hardlink_info) {
        return None;
    }
    tree.par_deduplicate_hardlinks(hardlink_info);
    let ghost deduplicated = tree;
    if !only_one_arg {
        let name = tree.name_mut();
        *name = String::from_str("(total)");
    }
    assert(deduplicated.deduplicated_from(sorted, info));
    assert(tree.spec_size() == deduplicated.spec_size());
    assert(tree.spec_children() == deduplicated.spec_children());
    assert(if only_one_arg {
        tree.spec_name() == deduplicated.spec_name()
    } else {
        tree.spec_name()@ == "(total)"@
    });
    Some(tree)
}

} // verus!
