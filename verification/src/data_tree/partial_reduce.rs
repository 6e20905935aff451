use crate::parallel::{par_map, par_partition, split_by, Parts};
use super::{lemma_total_size_nonneg, lemma_total_size_pointwise, lemma_total_size_prefix, lemma_total_size_push, total_size, DataTree};
use vstd::prelude::*;

verus! {

/// Parameter to pass to `name_reduced` callback of
/// [`par_partial_reduce`](DataTree::par_partial_reduce).
#[derive(Debug, Clone, Copy)]
pub struct NameReducedParam<'tree, 'local, Name> {
    /// Children chosen by `predicate`.
    pub reduced_children: &'local Vec<DataTree<Name>>,
    /// Total of data of chosen children.
    pub reduced_data_sum: u64,
    /// Data of the parent.
    pub parent_data: u64,
    /// Name of the parent.
    pub parent_name: &'tree Name,
}

/// Parameter to pass to `predicate` callback of
/// [`par_partial_reduce`](DataTree::par_partial_reduce).
#[derive(Debug, Clone, Copy)]
pub struct PredicateParam<'a, Name> {
    /// The current child.
    pub child: &'a DataTree<Name>,
    /// Data of the parent.
    pub parent_data: u64,
    /// Name of the parent.
    pub parent_name: &'a Name,
}

/// `indices` is strictly increasing and every entry is below `bound`.
pub open spec fn increasing_below(indices: Seq<int>, bound: int) -> bool {
    &&& forall|a: int, b: int| 0 <= a < b < indices.len() ==> indices[a] < indices[b]
    &&& forall|j: int| 0 <= j < indices.len() ==> 0 <= #[trigger] indices[j] < bound
}

/// The items of `s` at the given positions, in order.
pub open spec fn pick<T>(s: Seq<T>, indices: Seq<int>) -> Seq<T> {
    Seq::new(indices.len(), |j: int| s[indices[j]])
}

/// Splitting a sequence of trees into the trees at some positions and those
/// at the other positions splits its total size.
pub proof fn lemma_total_size_split<Name>(trees: Seq<DataTree<Name>>, a: Seq<int>, b: Seq<int>)
    requires
        increasing_below(a, trees.len() as int),
        increasing_below(b, trees.len() as int),
        forall|i: int| 0 <= i < trees.len() ==> (a.contains(i) <==> !b.contains(i)),
    ensures
        total_size(pick(trees, a)) + total_size(pick(trees, b)) == total_size(trees),
    decreases trees.len(),
{
    let n = trees.len() as int;
    if n == 0 {
        if a.len() > 0 {
            assert(0 <= a[0] < n);
        }
        if b.len() > 0 {
            assert(0 <= b[0] < n);
        }
        assert(pick(trees, a) =~= Seq::<DataTree<Name>>::empty());
        assert(pick(trees, b) =~= Seq::<DataTree<Name>>::empty());
    } else {
        let rest = trees.drop_last();
        if a.contains(n - 1) {
            lemma_last_index(a, n);
            let shorter = a.drop_last();
            assert forall|i: int| 0 <= i < n - 1 implies (shorter.contains(i) <==> !b.contains(i)) by {
                if a.contains(i) {
                    let w = choose|w: int| 0 <= w < a.len() && a[w] == i;
                    assert(w < a.len() - 1);
                    assert(shorter[w] == i);
                }
                if shorter.contains(i) {
                    let w = choose|w: int| 0 <= w < shorter.len() && shorter[w] == i;
                    assert(a[w] == i);
                }
            }
            assert forall|j: int| 0 <= j < b.len() implies #[trigger] b[j] < n - 1 by {
                if b[j] == n - 1 {
                    assert(b.contains(n - 1));
                }
            }
            lemma_total_size_split(rest, shorter, b);
            assert(pick(trees, a) =~= pick(rest, shorter).push(trees[n - 1]));
            assert(pick(trees, b) =~= pick(rest, b));
            lemma_total_size_push(pick(rest, shorter), trees[n - 1]);
        } else {
            assert(b.contains(n - 1));
            lemma_last_index(b, n);
            let shorter = b.drop_last();
            assert forall|i: int| 0 <= i < n - 1 implies (a.contains(i) <==> !shorter.contains(i)) by {
                if b.contains(i) {
                    let w = choose|w: int| 0 <= w < b.len() && b[w] == i;
                    assert(w < b.len() - 1);
                    assert(shorter[w] == i);
                }
                if shorter.contains(i) {
                    let w = choose|w: int| 0 <= w < shorter.len() && shorter[w] == i;
                    assert(b[w] == i);
                }
            }
            assert forall|j: int| 0 <= j < a.len() implies #[trigger] a[j] < n - 1 by {
                if a[j] == n - 1 {
                    assert(a.contains(n - 1));
                }
            }
            lemma_total_size_split(rest, a, shorter);
            assert(pick(trees, b) =~= pick(rest, shorter).push(trees[n - 1]));
            assert(pick(trees, a) =~= pick(rest, a));
            lemma_total_size_push(pick(rest, shorter), trees[n - 1]);
        }
    }
}

/// A strictly increasing sequence of indices below `n` that holds `n - 1`
/// ends with it, and its other entries are below it.
proof fn lemma_last_index(indices: Seq<int>, n: int)
    requires
        increasing_below(indices, n),
        indices.contains(n - 1),
    ensures
        indices.len() > 0,
        indices.last() == n - 1,
        forall|j: int| 0 <= j < indices.len() - 1 ==> #[trigger] indices[j] < n - 1,
{
    let w = choose|w: int| 0 <= w < indices.len() && indices[w] == n - 1;
    if w < indices.len() - 1 {
        assert(indices[w] < indices[indices.len() - 1]);
    }
    assert forall|j: int| 0 <= j < indices.len() - 1 implies #[trigger] indices[j] < n - 1 by {
        assert(indices[j] < indices[indices.len() - 1]);
    }
}

impl<Name> DataTree<Name> {
    /// Both callbacks of [`par_partial_reduce`](Self::par_partial_reduce)
    /// may be called on any argument.
    pub open spec fn reduce_callable<NameReduced, Predicate>(
        name_reduced: NameReduced,
        predicate: Predicate,
    ) -> bool where
        NameReduced: Fn(NameReducedParam<Name>) -> Name,
        Predicate: Fn(PredicateParam<Name>) -> bool,
     {
        &&& forall|child: DataTree<Name>, parent_data: u64, parent_name: Name|
            #[trigger] predicate.requires(
                (PredicateParam { child: &child, parent_data, parent_name: &parent_name },),
            )
        &&& forall|
            reduced_children: Vec<DataTree<Name>>,
            reduced_data_sum: u64,
            parent_data: u64,
            parent_name: Name,
        |
            #[trigger] name_reduced.requires(
                (
                    NameReducedParam {
                        reduced_children: &reduced_children,
                        reduced_data_sum,
                        parent_data,
                        parent_name: &parent_name,
                    },
                ),
            )
    }

    /// What `predicate` was asked about the child at `index` of `parent`.
    pub open spec fn predicate_answered<Predicate: Fn(PredicateParam<Name>) -> bool>(
        predicate: Predicate,
        parent: DataTree<Name>,
        index: int,
        answer: bool,
    ) -> bool {
        predicate.ensures(
            (
                PredicateParam {
                    child: &parent.spec_children()[index],
                    parent_data: parent.spec_size(),
                    parent_name: &parent.spec_name(),
                },
            ),
            answer,
        )
    }

    /// What `predicate` answered about `child` of a parent of the given size
    /// and name.
    pub open spec fn predicate_says<Predicate: Fn(PredicateParam<Name>) -> bool>(
        predicate: Predicate,
        child: &DataTree<Name>,
        parent_data: u64,
        parent_name: &Name,
        answer: bool,
    ) -> bool {
        predicate.ensures((PredicateParam { child, parent_data, parent_name },), answer)
    }

    /// This tree is what [`par_partial_reduce`](Self::par_partial_reduce)
    /// makes of `old`.
    ///
    /// A node with fewer than 3 children is kept as it is. Otherwise
    /// `predicate` splits its children into those to reduce and the others.
    /// If all are reduced, the node keeps its name and size and loses its
    /// children. Otherwise the others come first, in their order, each
    /// reduced in turn; then, if any child was reduced, one childless node
    /// whose size is the total of the reduced children and whose name
    /// `name_reduced` gave.
    pub closed spec fn reduced_from<NameReduced, Predicate>(
        &self,
        old: DataTree<Name>,
        name_reduced: NameReduced,
        predicate: Predicate,
    ) -> bool where
        NameReduced: Fn(NameReducedParam<Name>) -> Name,
        Predicate: Fn(PredicateParam<Name>) -> bool,

        decreases old,
    {
        if old.children@.len() < 3 {
            *self == old
        } else {
            &&& self.name == old.name
            &&& self.size == old.size
            &&& exists|reduced: Seq<int>, kept: Seq<int>|
                {
                    &&& increasing_below(reduced, old.children@.len() as int)
                    &&& increasing_below(kept, old.children@.len() as int)
                    &&& forall|i: int|
                        0 <= i < old.children@.len() ==> (reduced.contains(i) <==> !kept.contains(i))
                    &&& forall|j: int|
                        0 <= j < reduced.len() ==> Self::predicate_answered(
                            predicate,
                            old,
                            #[trigger] reduced[j],
                            true,
                        )
                    &&& forall|j: int|
                        0 <= j < kept.len() ==> Self::predicate_answered(
                            predicate,
                            old,
                            #[trigger] kept[j],
                            false,
                        )
                    &&& if kept.len() == 0 {
                        self.children@.len() == 0
                    } else {
                        &&& self.children@.len() == kept.len() + if reduced.len() > 0 {
                            1int
                        } else {
                            0int
                        }
                        &&& forall|j: int|
                            0 <= j < kept.len() ==> (#[trigger] self.children@[j]).reduced_from(
                                old.children@[kept[j]],
                                name_reduced,
                                predicate,
                            )
                        &&& reduced.len() > 0 ==> {
                            let node = self.children@[kept.len() as int];
                            &&& node.size == total_size(pick(old.children@, reduced))
                            &&& node.children@.len() == 0
                            &&& exists|reduced_children: Vec<DataTree<Name>>|
                                reduced_children@ == pick(old.children@, reduced)
                                    && #[trigger] name_reduced.ensures(
                                    (
                                        NameReducedParam {
                                            reduced_children: &reduced_children,
                                            reduced_data_sum: node.size,
                                            parent_data: old.size,
                                            parent_name: &old.name,
                                        },
                                    ),
                                    node.name,
                                )
                        }
                    }
                }
        }
    }

    /// What `reduced_from` says, one level at a time, over the node's name, size and children.
    pub proof fn lemma_reduced_from_unfold<NameReduced, Predicate>(
        &self,
        old: DataTree<Name>,
        name_reduced: NameReduced,
        predicate: Predicate,
    ) where
        NameReduced: Fn(NameReducedParam<Name>) -> Name,
        Predicate: Fn(PredicateParam<Name>) -> bool,
        ensures
            self.reduced_from(old, name_reduced, predicate) <==> ({
                if old.spec_children().len() < 3 {
                    *self == old
                } else {
                    &&& self.spec_name() == old.spec_name()
                    &&& self.spec_size() == old.spec_size()
                    &&& exists|reduced: Seq<int>, kept: Seq<int>|
                        {
                            &&& increasing_below(reduced, old.spec_children().len() as int)
                            &&& increasing_below(kept, old.spec_children().len() as int)
                            &&& forall|i: int|
                                0 <= i < old.spec_children().len() ==> (reduced.contains(i) <==> !kept.contains(i))
                            &&& forall|j: int|
                                0 <= j < reduced.len() ==> Self::predicate_answered(
                                    predicate,
                                    old,
                                    #[trigger] reduced[j],
                                    true,
                                )
                            &&& forall|j: int|
                                0 <= j < kept.len() ==> Self::predicate_answered(
                                    predicate,
                                    old,
                                    #[trigger] kept[j],
                                    false,
                                )
                            &&& if kept.len() == 0 {
                                self.spec_children().len() == 0
                            } else {
                                &&& self.spec_children().len() == kept.len() + if reduced.len() > 0 {
                                    1int
                                } else {
                                    0int
                                }
                                &&& forall|j: int|
                                    0 <= j < kept.len() ==> (#[trigger] self.spec_children()[j]).reduced_from(
                                        old.spec_children()[kept[j]],
                                        name_reduced,
                                        predicate,
                                    )
                                &&& reduced.len() > 0 ==> {
                                    let node = self.spec_children()[kept.len() as int];
                                    &&& node.spec_size() == total_size(pick(old.spec_children(), reduced))
                                    &&& node.spec_children().len() == 0
                                    &&& exists|reduced_children: Vec<DataTree<Name>>|
                                        reduced_children@ == pick(old.spec_children(), reduced)
                                            && #[trigger] name_reduced.ensures(
                                            (
                                                NameReducedParam {
                                                    reduced_children: &reduced_children,
                                                    reduced_data_sum: node.spec_size(),
                                                    parent_data: old.spec_size(),
                                                    parent_name: &old.spec_name(),
                                                },
                                            ),
                                            node.spec_name(),
                                        )
                                }
                            }
                        }
                }
            }),
    {
        assert forall|x: DataTree<Name>|
            #![trigger x.spec_size()]
            #![trigger x.spec_name()]
            #![trigger x.spec_children()]
            x.spec_size() == x.size && x.spec_name() == x.name && x.spec_children() == x.children@ by {}
        assert(self.spec_children() == self.children@);
        assert(old.spec_children() == old.children@);
    }

    /// A reduced tree keeps the name and size of the tree it came from.
    pub proof fn lemma_reduced_keeps_size<NameReduced, Predicate>(
        &self,
        old: DataTree<Name>,
        name_reduced: NameReduced,
        predicate: Predicate,
    ) where
        NameReduced: Fn(NameReducedParam<Name>) -> Name,
        Predicate: Fn(PredicateParam<Name>) -> bool,

        requires
            self.reduced_from(old, name_reduced, predicate),
        ensures
            self.spec_size() == old.spec_size(),
            self.spec_name() == old.spec_name(),
    {
    }

    /// Reduce some children into one, recursively.
    ///
    /// See [`reduced_from`](Self::reduced_from) for what the result holds.
    pub fn par_partial_reduce<NameReduced, Predicate>(
        self,
        name_reduced: NameReduced,
        predicate: Predicate,
    ) -> (tree: Self) where
        Name: Send + Sync,
        NameReduced: Fn(NameReducedParam<Name>) -> Name + Copy + Sync + Send,
        Predicate: Fn(PredicateParam<Name>) -> bool + Copy + Sync + Send,

        requires
            self.sums_fit(),
            Self::reduce_callable(name_reduced, predicate),
        ensures
            tree.reduced_from(self, name_reduced, predicate),
            self.wf() ==> tree.wf(),
        decreases self,
    {
        if self.children.len() < 3 {
            return self;
        }
        let whole: Ghost<Self> = Ghost(self);
        let DataTree { name, size, children } = self;
        let ghost old_children = children@;
        let parent_name = &name;
        let ask = move |child: &Self| -> (answer: bool)
            requires
                Self::reduce_callable(name_reduced, predicate),
            ensures
                Self::predicate_says(predicate, child, size, parent_name, answer),
            { predicate(PredicateParam { child, parent_data: size, parent_name }) };
        let parts = par_partition(children, ask);
        let ghost (reduced_idx, kept_idx) = choose|chosen: Seq<int>, rest: Seq<int>|
            split_by(ask, old_children, chosen, rest, parts.chosen@, parts.rest@);
        let Parts { chosen: reduced, rest: unreduced } = parts;
        proof {
            lemma_total_size_split(old_children, reduced_idx, kept_idx);
            lemma_total_size_nonneg(reduced@);
            lemma_total_size_nonneg(unreduced@);
            assert forall|j: int| 0 <= j < reduced_idx.len() implies Self::predicate_answered(
                predicate,
                self,
                #[trigger] reduced_idx[j],
                true,
            ) by {
                assert(ask.ensures((&old_children[reduced_idx[j]],), true));
            }
            assert forall|j: int| 0 <= j < kept_idx.len() implies Self::predicate_answered(
                predicate,
                self,
                #[trigger] kept_idx[j],
                false,
            ) by {
                assert(ask.ensures((&old_children[kept_idx[j]],), false));
            }
        }
        let count = reduced.len();
        let mut reduced_sum: u64 = 0;
        for i in 0..count
            invariant
                count == reduced@.len(),
                reduced_sum == total_size(reduced@.take(i as int)),
                total_size(reduced@) <= u64::MAX,
        {
            proof {
                lemma_total_size_prefix(reduced@, i as int);
                lemma_total_size_prefix(reduced@, i + 1);
            }
            reduced_sum = reduced_sum + reduced[i].size;
        }
        proof {
            assert(reduced@.take(count as int) =~= reduced@);
        }
        if unreduced.len() == 0 {
            let tree = DataTree { name, size, children: Vec::new() };
            proof {
                assert(total_size(tree.children@) == 0);
            }
            return tree;
        }
        let ghost unreduced_seq = unreduced@;
        proof {
            assert forall|j: int| 0 <= j < unreduced_seq.len() implies {
                &&& decreases_to!(whole@ => unreduced_seq[j])
                &&& (#[trigger] unreduced_seq[j]).sums_fit()
                &&& (self.wf() ==> unreduced_seq[j].wf())
            } by {
                assert(unreduced_seq[j] == old_children[kept_idx[j]]);
                whole@.lemma_child_decreases(kept_idx[j]);
                assert(self.children@[kept_idx[j]].sums_fit());
            }
        }
        let reduce_child = move |child: Self| -> (new_child: Self)
            requires
                decreases_to!(whole@ => child),
                child.sums_fit(),
                Self::reduce_callable(name_reduced, predicate),
            ensures
                new_child.reduced_from(child, name_reduced, predicate),
                child.wf() ==> new_child.wf(),
                new_child.spec_size() == child.spec_size(),
            {
                let ghost input = child;
                let new_child = child.par_partial_reduce(name_reduced, predicate);
                proof {
                    new_child.lemma_reduced_keeps_size(input, name_reduced, predicate);
                }
                new_child
            };
        let mut new_children = par_map(unreduced, reduce_child);
        proof {
            assert forall|j: int| 0 <= j < unreduced_seq.len() implies #[trigger] new_children@[j].spec_size()
                == unreduced_seq[j].spec_size() by {
            }
            lemma_total_size_pointwise(new_children@, unreduced_seq);
        }
        let ghost kept_children = new_children@;
        if reduced.len() > 0 {
            let reduced_name = name_reduced(
                NameReducedParam {
                    reduced_children: &reduced,
                    reduced_data_sum: reduced_sum,
                    parent_data: size,
                    parent_name: &name,
                },
            );
            let node = DataTree { name: reduced_name, size: reduced_sum, children: Vec::new() };
            proof {
                assert(total_size(node.children@) == 0);
                lemma_total_size_push(new_children@, node);
            }
            new_children.push(node);
        }
        let tree = DataTree { name, size, children: new_children };
        proof {
            assert forall|j: int| 0 <= j < kept_idx.len() implies (#[trigger] tree.children@[j]).reduced_from(
                old_children[kept_idx[j]],
                name_reduced,
                predicate,
            ) by {
                assert(kept_children[j] == tree.children@[j]);
            }
            if self.wf() {
                assert forall|j: int| 0 <= j < tree.children@.len() implies (#[trigger] tree.children@[j]).wf() by {
                    if j < kept_children.len() {
                        assert(kept_children[j] == tree.children@[j]);
                        assert(unreduced_seq[j].wf());
                    }
                }
            }
            if reduced_idx.len() > 0 {
                let node = tree.children@[kept_idx.len() as int];
                assert(node.size == total_size(pick(self.children@, reduced_idx)));
                assert(name_reduced.ensures(
                    (
                        NameReducedParam {
                            reduced_children: &reduced,
                            reduced_data_sum: node.size,
                            parent_data: self.size,
                            parent_name: &self.name,
                        },
                    ),
                    node.name,
                ));
            }
            assert(tree.reduced_from(self, name_reduced, predicate));
        }
        tree
    }
}

} // verus!
