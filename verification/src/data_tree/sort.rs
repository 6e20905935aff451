use super::{lemma_total_size_permutation, total_size, DataTree};
use crate::parallel::par_map;
use crate::total_order::{compares_totally, follows, is_stable_sort_of, is_total_order, order_of, sort_by};
use std::cmp::Ordering;
use vstd::prelude::*;

verus! {

impl<Name> DataTree<Name> {
    /// This tree is what sorting `old` by `order` gives: its name and size are
    /// those of `old`, and its children are the children of `old`, each
    /// sorted in turn, then stably sorted by `order`.
    pub closed spec fn sorted_from(
        &self,
        old: DataTree<Name>,
        order: spec_fn(DataTree<Name>, DataTree<Name>) -> Ordering,
    ) -> bool
        decreases old,
    {
        &&& self.name == old.name
        &&& self.size == old.size
        &&& exists|sorted_children: Seq<DataTree<Name>>|
            {
                &&& sorted_children.len() == old.children@.len()
                &&& forall|i: int|
                    0 <= i < old.children@.len() ==> (#[trigger] sorted_children[i]).sorted_from(
                        old.children@[i],
                        order,
                    )
                &&& is_stable_sort_of(self.children@, sorted_children, order)
            }
    }

    /// What `sorted_from` says, one level at a time, over the node's name, size and children.
    pub proof fn lemma_sorted_from_unfold(
        &self,
        old: DataTree<Name>,
        order: spec_fn(DataTree<Name>, DataTree<Name>) -> Ordering,
    )
        ensures
            self.sorted_from(old, order) <==> ({
                &&& self.spec_name() == old.spec_name()
                &&& self.spec_size() == old.spec_size()
                &&& exists|sorted_children: Seq<DataTree<Name>>|
                    {
                        &&& sorted_children.len() == old.spec_children().len()
                        &&& forall|i: int|
                            0 <= i < old.spec_children().len() ==> (#[trigger] sorted_children[i]).sorted_from(
                                old.spec_children()[i],
                                order,
                            )
                        &&& is_stable_sort_of(self.spec_children(), sorted_children, order)
                    }
            }),
    {
        assert(self.spec_children() == self.children@);
        assert(old.spec_children() == old.children@);
    }

    /// A sorted tree keeps the name and size of the tree it came from.
    pub proof fn lemma_sorted_keeps_size(
        &self,
        old: DataTree<Name>,
        order: spec_fn(DataTree<Name>, DataTree<Name>) -> Ordering,
    )
        requires
            self.sorted_from(old, order),
        ensures
            self.spec_size() == old.spec_size(),
            self.spec_name() == old.spec_name(),
    {
    }

    /// Sort all descendants recursively.
    pub fn par_sort_by<Compare>(&mut self, compare: Compare) where
        Name: Send,
        Compare: Fn(&Self, &Self) -> Ordering + Copy + Sync + Send,

        requires
            compares_totally(compare),
        ensures
            forall|order: spec_fn(DataTree<Name>, DataTree<Name>) -> Ordering|
                is_total_order(order) && follows(compare, order) ==> #[trigger] final(self).sorted_from(
                    *old(self),
                    order,
                ),
            final(self).sorted_from(*old(self), order_of(compare)),
            old(self).wf() ==> final(self).wf(),
        decreases *old(self),
    {
        let whole: Ghost<Self> = Ghost(*self);
        let mut children: Vec<Self> = Vec::new();
        std::mem::swap(&mut children, &mut self.children);
        let ghost old_children = children@;
        proof {
            assert forall|i: int| 0 <= i < old_children.len() implies decreases_to!(whole@ => old_children[i]) by {
                whole@.lemma_child_decreases(i);
            }
        }
        let sort_child = move |child: Self| -> (sorted_child: Self)
                requires
                    compares_totally(compare),
                    decreases_to!(whole@ => child),
                ensures
                    sorted_child.sorted_from(child, order_of(compare)),
                    forall|order: spec_fn(DataTree<Name>, DataTree<Name>) -> Ordering|
                        is_total_order(order) && follows(compare, order) ==> #[trigger] sorted_child.sorted_from(
                            child,
                            order,
                        ),
                    child.wf() ==> sorted_child.wf(),
                    sorted_child.spec_size() == child.spec_size(),
                {
                    let ghost input = child;
                    let mut child = child;
                    child.par_sort_by(compare);
                    proof {
                        child.lemma_sorted_keeps_size(input, order_of(compare));
                    }
                    child
                };
        let mut sorted = par_map(children, sort_child);
        let ghost unsorted = sorted@;
        proof {
            let order = order_of(compare);
            assert(crate::total_order::is_total_order(order) && crate::total_order::follows(compare, order));
        }
        sort_by(&mut sorted, compare);
        self.children = sorted;
        proof {
            assert forall|order: spec_fn(DataTree<Name>, DataTree<Name>) -> Ordering|
                is_total_order(order) && follows(compare, order) implies #[trigger] self.sorted_from(
                *old(self),
                order,
            ) by {
                assert(is_stable_sort_of(self.children@, unsorted, order));
                assert forall|i: int| 0 <= i < old_children.len() implies (
                #[trigger] unsorted[i]).sorted_from(old_children[i], order) by {
                    assert(unsorted[i].sorted_from(old_children[i], order));
                }
            }
            let order = order_of(compare);
            assert(is_stable_sort_of(self.children@, unsorted, order));
            assert(self.sorted_from(*old(self), order));
            if old(self).wf() {
                let perm = choose|perm: Seq<int>|
                    {
                        &&& crate::total_order::is_permutation(perm, unsorted.len())
                        &&& self.children@.len() == unsorted.len()
                        &&& forall|i: int|
                            0 <= i < self.children@.len() ==> #[trigger] self.children@[i]
                                == unsorted[perm[i]]
                        &&& forall|i: int, j: int|
                            0 <= i < j < self.children@.len() ==> order(
                                self.children@[i],
                                self.children@[j],
                            ) != Ordering::Greater
                        &&& forall|i: int, j: int|
                            0 <= i < j < self.children@.len() && order(
                                self.children@[i],
                                self.children@[j],
                            ) == Ordering::Equal ==> perm[i] < perm[j]
                    };
                super::lemma_total_size_pointwise(unsorted, old_children);
                lemma_total_size_permutation(self.children@, unsorted, perm);
                assert forall|i: int| 0 <= i < self.children@.len() implies (#[trigger] self.children@[i]).wf() by {
                    assert(self.children@[i] == unsorted[perm[i]]);
                    assert(old_children[perm[i]].wf());
                }
            }
        }
    }

    /// Process the tree via [`par_sort_by`](Self::par_sort_by) method.
    pub fn into_par_sorted<Compare>(self, compare: Compare) -> (tree: Self) where
        Name: Send,
        Compare: Fn(&Self, &Self) -> Ordering + Copy + Sync + Send,

        requires
            compares_totally(compare),
        ensures
            forall|order: spec_fn(DataTree<Name>, DataTree<Name>) -> Ordering|
                is_total_order(order) && follows(compare, order) ==> #[trigger] tree.sorted_from(
                    self,
                    order,
                ),
            tree.sorted_from(self, order_of(compare)),
            self.wf() ==> tree.wf(),
    {
        let mut tree = self;
        tree.par_sort_by(compare);
        tree
    }
}

} // verus!
