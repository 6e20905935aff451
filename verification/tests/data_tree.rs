use parallel_disk_usage::app::sub::size_order::sort_larger_first;
use parallel_disk_usage::app::sub::{
    argument_list, coloring_targets, finish_tree, join_argument_trees, leaf_paths,
};
use parallel_disk_usage::fs_tree_builder::assemble_node;
use parallel_disk_usage::data_tree::partial_reduce::{NameReducedParam, PredicateParam};
use parallel_disk_usage::data_tree::reflection::ConversionError;
use parallel_disk_usage::data_tree::{DataTree, Reflection};
use std::cmp::Ordering;

type SampleTree = DataTree<String>;

fn dir_of(inode_size: u64) -> impl Fn(&'static str, Vec<SampleTree>) -> SampleTree {
    move |name, children| SampleTree::dir(name.to_string(), inode_size, children)
}

fn file(name: &'static str, size: u64) -> SampleTree {
    SampleTree::file(name.to_string(), size)
}

fn order_tree(left: &SampleTree, right: &SampleTree) -> Ordering {
    left.name().cmp(right.name())
}

fn name_reduced(param: NameReducedParam<String>) -> String {
    param
        .reduced_children
        .iter()
        .map(|child| child.name().as_str())
        .collect::<Vec<_>>()
        .join(", ")
}

fn insignificant(minimal_ratio: f32) -> impl Fn(PredicateParam<String>) -> bool + Copy {
    move |param| {
        let minimal = param.parent_data as f32 * minimal_ratio;
        let actual = param.child.size() as f32;
        minimal >= actual
    }
}

#[test]
fn typical_case() {
    let dir = dir_of(4069);
    let actual = dir(
        "root",
        vec![
            dir("empty directory", vec![]),
            dir("directory of one empty file", vec![file("empty file", 0)]),
            dir("directory of one small file", vec![file("small file", 1024)]),
            dir(
                "directory of multiple small files",
                vec![
                    file("a", 90),
                    file("b", 90),
                    file("c", 90),
                    file("d", 90),
                    file("e", 90),
                    file("f", 90),
                    file("g", 90),
                    file("h", 90),
                    file("i", 90),
                    file("j", 90),
                    file("k", 90),
                ],
            ),
            dir(
                "directory of multiple files of various sizes",
                vec![
                    file("a", 90),
                    file("b", 90),
                    file("c", 90),
                    file("d", 90),
                    file("e", 90),
                    file("f", 90),
                    file("g", 90),
                    file("h", 90),
                    file("i", 90),
                    file("j", 90),
                    file("A", 4321),
                    file("B", 4321),
                    file("C", 4321),
                    file("D", 4321),
                    file("E", 4321),
                    file("F", 4321),
                ],
            ),
        ],
    )
    .into_par_sorted(order_tree)
    .par_partial_reduce(name_reduced, insignificant(0.05))
    .into_reflection();
    let expected = dir(
        "root",
        vec![
            dir(
                "directory of multiple files of various sizes",
                vec![
                    file("A", 4321),
                    file("B", 4321),
                    file("C", 4321),
                    file("D", 4321),
                    file("E", 4321),
                    file("F", 4321),
                    file("a, b, c, d, e, f, g, h, i, j", 10 * 90),
                ],
            ),
            file("directory of multiple small files", 4069 + 11 * 90),
            dir("directory of one empty file", vec![file("empty file", 0)]),
            dir("directory of one small file", vec![file("small file", 1024)]),
            file("empty directory", 4069),
        ],
    )
    .into_reflection();
    assert_eq!(actual, expected);
}

#[test]
fn edge_cases() {
    let dir = dir_of(4069);
    let actual = dir(
        "root",
        vec![
            dir(
                "reduce half",
                vec![
                    file("!abc", 123),
                    file("abc", 321),
                    file("!def", 456),
                    file("def", 654),
                    file("!ghi", 789),
                    file("ghi", 987),
                ],
            ),
            dir(
                "reduce all",
                vec![file("!abc", 123), file("!def", 456), file("!ghi", 789)],
            ),
            dir(
                "reduce none",
                vec![file("abc", 321), file("def", 654), file("ghi", 987)],
            ),
            dir(
                "reduce one",
                vec![
                    file("abc", 321),
                    file("def", 654),
                    file("!def", 456),
                    file("ghi", 987),
                ],
            ),
            dir(
                "reduce all but one",
                vec![
                    file("!abc", 123),
                    file("!def", 456),
                    file("!ghi", 789),
                    file("def", 654),
                ],
            ),
        ],
    )
    .par_partial_reduce(name_reduced, |param: PredicateParam<String>| {
        param.child.name().starts_with('!')
    })
    .into_reflection();
    let expected = dir(
        "root",
        vec![
            dir(
                "reduce half",
                vec![
                    file("abc", 321),
                    file("def", 654),
                    file("ghi", 987),
                    file("!abc, !def, !ghi", 123 + 456 + 789),
                ],
            ),
            file("reduce all", 4069 + 123 + 456 + 789),
            dir(
                "reduce none",
                vec![file("abc", 321), file("def", 654), file("ghi", 987)],
            ),
            dir(
                "reduce one",
                vec![
                    file("abc", 321),
                    file("def", 654),
                    file("ghi", 987),
                    file("!def", 456),
                ],
            ),
            dir(
                "reduce all but one",
                vec![file("def", 654), file("!abc, !def, !ghi", 123 + 456 + 789)],
            ),
        ],
    )
    .into_reflection();
    assert_eq!(actual, expected);
}

#[test]
fn dir_size_is_inode_size_plus_children() {
    let tree = dir_of(10)("root", vec![file("a", 3), file("b", 4)]);
    assert_eq!(tree.size(), 17);
    assert_eq!(tree.name(), "root");
    assert_eq!(tree.children().len(), 2);
    let constructor = SampleTree::fixed_size_dir_constructor(5);
    let built = constructor("x".to_string(), vec![file("y", 1)]);
    assert_eq!(built.size(), 6);
}

#[test]
fn reflection_round_trip_gives_back_the_tree() {
    let tree = dir_of(1)("root", vec![dir_of(2)("sub", vec![file("a", 3)]), file("b", 4)]);
    let reflection = tree.into_reflection();
    let expected = reflection_of("root", 10, vec![
        reflection_of("sub", 5, vec![reflection_of("a", 3, vec![])]),
        reflection_of("b", 4, vec![]),
    ]);
    assert_eq!(reflection, expected);
    let back = reflection.par_try_into_tree().expect("valid reflection");
    assert_eq!(back.size(), 10);
    assert_eq!(back.into_reflection(), expected);
}

fn reflection_of(name: &str, size: u64, children: Vec<Reflection<String>>) -> Reflection<String> {
    Reflection {
        name: name.to_string(),
        size,
        children,
    }
}

#[test]
fn excessive_children_are_refused_with_their_path() {
    let reflection = reflection_of("root", 100, vec![
        reflection_of("fine", 1, vec![]),
        reflection_of("bad", 2, vec![reflection_of("x", 3, vec![])]),
    ]);
    let error = reflection.par_try_into_tree().expect_err("excessive children");
    match &error {
        ConversionError::ExcessiveChildren { path, size, children_sum, .. } => {
            let path: Vec<String> = path.iter().cloned().collect();
            assert_eq!(path, vec!["root".to_string(), "bad".to_string()]);
            assert_eq!(*size, 2);
            assert_eq!(*children_sum, 3);
        }
        _ => unreachable!(),
    }
    assert_eq!(error.to_string(), "ExcessiveChildren: \"root/bad\": 2 is less than 3");
}

#[test]
fn retain_culls_by_predicate_and_depth() {
    let tree = dir_of(1)("root", vec![
        dir_of(1)("keep", vec![file("small", 1), file("big", 50)]),
        file("drop", 2),
    ]);
    let culled = tree.into_par_retained(|node: &SampleTree, _depth: u64| node.size() >= 3);
    let expected = reflection_of("root", 55, vec![
        reflection_of("keep", 52, vec![reflection_of("big", 50, vec![])]),
    ]);
    assert_eq!(culled.into_reflection(), expected);
}

#[test]
fn sort_orders_every_level() {
    let mut tree = dir_of(0)("root", vec![
        file("b", 1),
        dir_of(0)("a", vec![file("z", 2), file("y", 3)]),
    ]);
    tree.par_sort_by(order_tree);
    let expected = reflection_of("root", 6, vec![
        reflection_of("a", 5, vec![reflection_of("y", 3, vec![]), reflection_of("z", 2, vec![])]),
        reflection_of("b", 1, vec![]),
    ]);
    assert_eq!(tree.into_reflection(), expected);
}

#[test]
fn larger_entries_come_first() {
    let mut tree = dir_of(0)("root", vec![file("small", 1), file("large", 9), file("same", 1)]);
    sort_larger_first(&mut tree);
    let names: Vec<&str> = tree.children().iter().map(|child| child.name().as_str()).collect();
    assert_eq!(names, vec!["large", "small", "same"]);
}

#[test]
fn several_arguments_are_joined_under_an_empty_root() {
    let trees = vec![
        dir_of(1)("first", vec![dir_of(1)("deep", vec![file("deeper", 1)])]),
        file("second", 4),
    ];
    let joined = join_argument_trees(trees, 2);
    let expected = reflection_of("", 7, vec![
        reflection_of("first", 3, vec![]),
        reflection_of("second", 4, vec![]),
    ]);
    assert_eq!(joined.into_reflection(), expected);
    let single = join_argument_trees(vec![file("only", 5)], 1);
    assert_eq!(single.into_reflection(), reflection_of("only", 5, vec![]));
}

#[test]
fn leaf_paths_and_coloring_targets() {
    let tree = dir_of(0)("root", vec![dir_of(0)("a", vec![file("x", 1)]), file("b", 2)]);
    let paths = leaf_paths(&tree);
    let strings = |items: &[&str]| items.iter().map(|item| item.to_string()).collect::<Vec<_>>();
    assert_eq!(paths, vec![strings(&["root", "a", "x"]), strings(&["root", "b"])]);
    let single = coloring_targets(&tree, true);
    assert_eq!(single[0], (strings(&["root", "a", "x"]), strings(&["root", "a", "x"])));
    let joined = coloring_targets(&tree, false);
    assert_eq!(joined[1], (strings(&["root", "b"]), strings(&["b"])));
    let lonely = coloring_targets(&file("alone", 1), false);
    assert!(lonely.is_empty());
}

#[test]
fn hardlinks_are_counted_once() {
    let mut tree = dir_of(0)("root", vec![
        dir_of(0)("a", vec![file("x", 10), file("y", 10)]),
        file("z", 10),
    ]);
    let info = vec![(
        10u64,
        vec!["root/a/x".to_string(), "root/a/y".to_string(), "root/z".to_string()],
    )];
    tree.par_deduplicate_hardlinks(&info);
    assert_eq!(tree.size(), 10);
    assert_eq!(tree.children()[0].size(), 10);
    assert_eq!(tree.children()[1].size(), 10);
    let mut unchanged = file("lonely", 7);
    unchanged.par_deduplicate_hardlinks(&[]);
    assert_eq!(unchanged.size(), 7);
}

#[test]
fn deduplication_fits_only_when_no_size_goes_below_zero() {
    let tree = dir_of(0)("root", vec![
        dir_of(0)("a", vec![file("x", 10), file("y", 10)]),
        file("z", 10),
    ]);
    let info = vec![(
        10u64,
        vec!["root/a/x".to_string(), "root/a/y".to_string(), "root/z".to_string()],
    )];
    assert!(tree.check_deduplication_fits(&info));
    assert!(tree.check_deduplication_fits(&[]));
    let too_large = vec![(31u64, vec!["root/a/x".to_string(), "root/z".to_string()])];
    assert!(!tree.check_deduplication_fits(&too_large));
    let overflowing = vec![(u64::MAX, vec![
        "root/a/x".to_string(),
        "root/a/y".to_string(),
        "root/z".to_string(),
    ])];
    assert!(!tree.check_deduplication_fits(&overflowing));
    let elsewhere = vec![(1000u64, vec!["other/p".to_string(), "other/q".to_string()])];
    assert!(tree.check_deduplication_fits(&elsewhere));
}

#[test]
fn no_argument_means_the_current_directory() {
    assert_eq!(argument_list(Vec::new()), vec![".".to_string()]);
    let given = vec!["a".to_string(), "b".to_string()];
    assert_eq!(argument_list(given.clone()), given);
}

#[test]
fn nodes_below_the_max_depth_keep_their_sizes_but_not_their_children() {
    let children = vec![file("x", 10), file("y", 20)];
    let node = assemble_node("d".to_string(), 5, children, 1, 3);
    assert_eq!(node.size(), 35);
    assert_eq!(node.children().len(), 2);
    let children = vec![file("x", 10), file("y", 20)];
    let node = assemble_node("d".to_string(), 5, children, 2, 3);
    assert_eq!(node.name(), "d");
    assert_eq!(node.size(), 35);
    assert!(node.children().is_empty());
}

#[test]
fn finished_tree_is_sorted_deduplicated_and_named() {
    let joined = dir_of(0)("", vec![
        dir_of(0)("r", vec![file("a", 10), file("b", 10), file("c", 30)]),
        file("s", 5),
    ]);
    let info = vec![(10u64, vec!["r/a".to_string(), "r/b".to_string()])];
    let tree = finish_tree(joined, false, true, &info).unwrap();
    assert_eq!(tree.name(), "(total)");
    assert_eq!(tree.size(), 45);
    assert_eq!(tree.children()[0].name(), "r");
    assert_eq!(tree.children()[0].size(), 40);
    assert_eq!(tree.children()[0].children()[0].name(), "c");
    assert_eq!(tree.children()[1].name(), "s");
    let single = finish_tree(file("only", 3), true, false, &[]).unwrap();
    assert_eq!(single.name(), "only");
    let too_much = vec![(100u64, vec!["r/a".to_string(), "r/b".to_string()])];
    let joined = dir_of(0)("", vec![dir_of(0)("r", vec![file("a", 10), file("b", 10)])]);
    assert!(finish_tree(joined, false, false, &too_much).is_none());
}

#[test]
fn fixed_size_dir_constructor_builds_what_dir_builds() {
    let constructor = SampleTree::fixed_size_dir_constructor(4096);
    let children = || vec![file("a", 1), dir_of(10)("b", vec![file("c", 2)])];
    assert_eq!(constructor("d".to_string(), children()), SampleTree::dir("d".to_string(), 4096, children()));
    assert_eq!(constructor("e".to_string(), vec![]), SampleTree::dir("e".to_string(), 4096, vec![]));
}
