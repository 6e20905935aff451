//! Colors of the names in the chart.
pub mod style;

use crate::data_tree::DataTree;
use crate::text::str_equal;
use style::{ansi_prefix, style_to_ansi_prefix, Style};
use vstd::prelude::*;

verus! {

/// The ANSI reset sequence.
pub const ANSI_RESET: &'static str = "\x1b[0m";

/// The prefix of an optional style: empty where there is none.
pub open spec fn optional_prefix(style: Option<Style>) -> Seq<char> {
    match style {
        Some(style) => ansi_prefix(style),
        None => seq![],
    }
}

/// The map that a sequence of insertions of names and prefixes makes: a
/// later entry of a name replaces an earlier one.
pub open spec fn color_map(entries: Seq<(Seq<char>, Seq<char>)>) -> Map<Seq<char>, Seq<char>>
    decreases entries.len(),
{
    if entries.len() == 0 {
        Map::empty()
    } else {
        color_map(entries.drop_last()).insert(entries.last().0, entries.last().1)
    }
}

/// The last entry of `name` decides its prefix.
pub proof fn lemma_color_map_last(entries: Seq<(Seq<char>, Seq<char>)>, i: int)
    requires
        0 <= i < entries.len(),
        forall|j: int| i < j < entries.len() ==> (#[trigger] entries[j]).0 != entries[i].0,
    ensures
        color_map(entries).contains_key(entries[i].0),
        color_map(entries)[entries[i].0] == entries[i].1,
    decreases entries.len(),
{
    if i < entries.len() - 1 {
        let rest = entries.drop_last();
        assert forall|j: int| i < j < rest.len() implies (#[trigger] rest[j]).0 != rest[i].0 by {
            assert(entries[j] == rest[j]);
        }
        lemma_color_map_last(rest, i);
        assert(entries[entries.len() - 1].0 != entries[i].0);
    }
}

/// A name without an entry has no prefix in the map.
pub proof fn lemma_color_map_absent(entries: Seq<(Seq<char>, Seq<char>)>, name: Seq<char>)
    requires
        forall|j: int| 0 <= j < entries.len() ==> (#[trigger] entries[j]).0 != name,
    ensures
        !color_map(entries).contains_key(name),
    decreases entries.len(),
{
    if entries.len() > 0 {
        let rest = entries.drop_last();
        assert forall|j: int| 0 <= j < rest.len() implies (#[trigger] rest[j]).0 != name by {
            assert(entries[j] == rest[j]);
        }
        lemma_color_map_absent(rest, name);
        assert(entries[entries.len() - 1].0 != name);
    }
}

/// Whether `prefix` is what a call of `leaf_style` on `name` may lead to.
pub open spec fn styled_as<F: Fn(&String) -> Option<Style>>(
    leaf_style: F,
    name: String,
    prefix: Seq<char>,
) -> bool {
    exists|style: Option<Style>|
        call_ensures(leaf_style, (&name,), style) && prefix == #[trigger] optional_prefix(style)
}

/// Color information for visualizing a tree.
///
/// Names of nodes without children map to the ANSI escape sequences that
/// start their colors; every other name gets the prefix of directories.
#[derive(Debug)]
pub struct Coloring {
    file_colors: Vec<(String, String)>,
    dir_prefix: String,
}

impl Coloring {
    /// The name and prefix of each leaf, in the order in which they were
    /// recorded.
    pub closed spec fn entries(&self) -> Seq<(Seq<char>, Seq<char>)> {
        self.file_colors@.map_values(|entry: (String, String)| (entry.0@, entry.1@))
    }

    /// The prefix of each name that has one of its own.
    pub open spec fn file_colors(&self) -> Map<Seq<char>, Seq<char>> {
        color_map(self.entries())
    }

    /// The prefix of directories that have children.
    pub closed spec fn dir_prefix(&self) -> Seq<char> {
        self.dir_prefix@
    }

    /// The prefix of `name`.
    pub open spec fn prefix_for(&self, name: Seq<char>) -> Seq<char> {
        if self.file_colors().contains_key(name) {
            self.file_colors()[name]
        } else {
            self.dir_prefix()
        }
    }

    /// Build a `Coloring` from a tree: each leaf gets the prefix of the
    /// style that `leaf_style` gives for its name, and directories with
    /// children that of `dir_style`.
    pub fn from_tree<F: Fn(&String) -> Option<Style>>(
        tree: &DataTree<String>,
        leaf_style: F,
        dir_style: Option<Style>,
    ) -> (coloring: Self)
        requires
            forall|name: &String| leaf_style.requires((name,)),
        ensures
            coloring.entries().len() == tree.leaves().len(),
            forall|i: int|
                0 <= i < tree.leaves().len() ==> {
                    &&& (#[trigger] coloring.entries()[i]).0 == tree.leaves()[i]@
                    &&& styled_as(leaf_style, tree.leaves()[i], coloring.entries()[i].1)
                },
            coloring.dir_prefix() == optional_prefix(dir_style),
    {
        let mut file_colors: Vec<(String, String)> = Vec::new();
        collect_leaf_colors(tree, &leaf_style, &mut file_colors);
        let dir_prefix = match &dir_style {
            Some(style) => style_to_ansi_prefix(style),
            None => String::new(),
        };
        let coloring = Coloring { file_colors, dir_prefix };
        proof {
            assert forall|i: int| 0 <= i < tree.leaves().len() implies {
                &&& (#[trigger] coloring.entries()[i]).0 == tree.leaves()[i]@
                &&& styled_as(leaf_style, tree.leaves()[i], coloring.entries()[i].1)
            } by {
                let leaf = tree.leaves()[i];
                assert(coloring.entries()[i] == (file_colors@[i].0@, file_colors@[i].1@));
            }
        }
        coloring
    }

    /// The index of the last entry of `name`, if any.
    fn last_entry_of(&self, name: &str) -> (found: Option<usize>)
        ensures
            found matches Some(k) ==> {
                &&& k < self.entries().len()
                &&& self.entries()[k as int].0 == name@
                &&& self.entries()[k as int].1 == self.file_colors@[k as int].1@
                &&& forall|j: int| k < j < self.entries().len() ==> (#[trigger] self.entries()[j]).0 != name@
            },
            found is None ==> forall|j: int|
                0 <= j < self.entries().len() ==> (#[trigger] self.entries()[j]).0 != name@,
    {
        let ghost entries = self.entries();
        let mut i = self.file_colors.len();
        while i > 0
            invariant
                i <= self.file_colors@.len(),
                entries == self.entries(),
                entries.len() == self.file_colors@.len(),
                forall|j: int| i <= j < entries.len() ==> (#[trigger] entries[j]).0 != name@,
            decreases i,
        {
            i = i - 1;
            assert(entries[i as int] == (self.file_colors@[i as int].0@, self.file_colors@[i as int].1@));
            if str_equal(self.file_colors[i].0.as_str(), name) {
                return Some(i);
            }
        }
        None
    }

    /// Get the ANSI prefix and suffix for a given name.
    ///
    /// A name with a prefix of its own is a file or a childless directory;
    /// any other name is a directory with children, which gets the prefix
    /// of directories. The suffix is the ANSI reset sequence; both are
    /// empty where the prefix is.
    pub fn ansi_for(&self, name: &str) -> (ansi: (&str, &str))
        ensures
            self.prefix_for(name@).len() == 0 ==> ansi.0@.len() == 0 && ansi.1@.len() == 0,
            self.prefix_for(name@).len() > 0 ==> ansi.0@ == self.prefix_for(name@) && ansi.1@
                == ANSI_RESET@,
    {
        let ghost entries = self.entries();
        let found = self.last_entry_of(name);
        let prefix: &str = match found {
            Some(k) => {
                proof {
                    lemma_color_map_last(entries, k as int);
                }
                self.file_colors[k].1.as_str()
            },
            None => {
                proof {
                    lemma_color_map_absent(entries, name@);
                }
                self.dir_prefix.as_str()
            },
        };
        if prefix.is_empty() {
            proof {
                reveal_strlit("");
            }
            ("", "")
        } else {
            (prefix, ANSI_RESET)
        }
    }
}

/// Appends the name and prefix of each leaf of `tree` to `entries`, from
/// left to right.
fn collect_leaf_colors<F: Fn(&String) -> Option<Style>>(
    tree: &DataTree<String>,
    leaf_style: &F,
    entries: &mut Vec<(String, String)>,
)
    requires
        forall|name: &String| leaf_style.requires((name,)),
    ensures
        final(entries)@.len() == old(entries)@.len() + tree.leaves().len(),
        forall|i: int| 0 <= i < old(entries)@.len() ==> #[trigger] final(entries)@[i] == old(entries)@[i],
        forall|i: int|
            #![trigger tree.leaves()[i]]
            0 <= i < tree.leaves().len() ==> {
                let entry = final(entries)@[old(entries)@.len() + i];
                &&& entry.0@ == tree.leaves()[i]@
                &&& styled_as(*leaf_style, tree.leaves()[i], entry.1@)
            },
    decreases tree,
{
    proof {
        tree.lemma_leaves_unfold();
    }
    let children = tree.children();
    if children.len() == 0 {
        let name = tree.name();
        let style = leaf_style(name);
        let prefix = match &style {
            Some(style) => style_to_ansi_prefix(style),
            None => String::new(),
        };
        let key = name.clone();
        proof {
            assert(optional_prefix(style) == prefix@);
            assert(tree.leaves()[0] == *name);
            assert(styled_as(*leaf_style, tree.leaves()[0], prefix@));
        }
        entries.push((key, prefix));
    } else {
        let ghost start = entries@;
        let len = children.len();
        for k in 0..len
            invariant
                len == children@.len(),
                children@ == tree.spec_children(),
                len > 0,
                forall|name: &String| leaf_style.requires((name,)),
                entries@.len() == start.len() + tree.leaves_of_children(k as nat).len(),
                forall|i: int| 0 <= i < start.len() ==> #[trigger] entries@[i] == start[i],
                forall|i: int|
                    0 <= i < tree.leaves_of_children(k as nat).len() ==> {
                        let entry = #[trigger] entries@[start.len() + i];
                        &&& entry.0@ == tree.leaves_of_children(k as nat)[i]@
                        &&& styled_as(*leaf_style, tree.leaves_of_children(k as nat)[i], entry.1@)
                    },
        {
            let ghost before = entries@;
            let ghost done = tree.leaves_of_children(k as nat);
            let ghost added = children@[k as int].leaves();
            proof {
                tree.lemma_child_decreases(k as int);
                tree.lemma_leaves_of_children_step((k + 1) as nat);
                assert forall|i: int| 0 <= i < done.len() implies {
                    &&& before[start.len() + i].0@ == (#[trigger] done[i])@
                    &&& styled_as(*leaf_style, done[i], before[start.len() + i].1@)
                } by {
                    assert(entries@[start.len() + i] == before[start.len() + i]);
                }
            }
            collect_leaf_colors(&children[k], leaf_style, entries);
            proof {
                let all = tree.leaves_of_children((k + 1) as nat);
                assert(all == done + added);
                assert forall|i: int| 0 <= i < all.len() implies {
                    let entry = entries@[start.len() + i];
                    &&& entry.0@ == (#[trigger] all[i])@
                    &&& styled_as(*leaf_style, all[i], entry.1@)
                } by {
                    if i < done.len() {
                        assert(all[i] == done[i]);
                        assert(entries@[start.len() + i] == before[start.len() + i]);
                    } else {
                        let m = i - done.len();
                        assert(all[i] == added[m]);
                        assert(entries@[before.len() + m] == entries@[start.len() + i]);
                    }
                }
            }
        }
        proof {
            assert(tree.leaves() == tree.leaves_of_children(len as nat));
        }
    }
}

} // verus!
