use super::{
    lemma_total_size_nonneg, lemma_total_size_pointwise, lemma_total_size_prefix, lemma_total_size_push,
    total_size, DataTree,
};
use crate::parallel::par_map;
use vstd::prelude::*;

verus! {

impl<Name> DataTree<Name> {
    /// `predicate` may be called on any tree and depth.
    pub open spec fn predicate_callable<Predicate: Fn(&DataTree<Name>, u64) -> bool>(
        predicate: Predicate,
    ) -> bool {
        forall|tree: &DataTree<Name>, depth: u64| #[trigger] predicate.requires((tree, depth))
    }

    /// This tree is what culling `old` by `predicate` leaves, where the
    /// children of `old` are at depth `depth`: its name and size are those of
    /// `old`, and its children are, in their order, exactly the children of
    /// `old` for which `predicate` returned `true`, each culled in turn one
    /// level deeper.
    pub closed spec fn retained_from<Predicate: Fn(&DataTree<Name>, u64) -> bool>(
        &self,
        old: DataTree<Name>,
        predicate: Predicate,
        depth: int,
    ) -> bool
        decreases old,
    {
        &&& self.name == old.name
        &&& self.size == old.size
        &&& exists|kept: Seq<int>|
            {
                &&& kept.len() == self.children@.len()
                &&& forall|a: int, b: int| 0 <= a < b < kept.len() ==> kept[a] < kept[b]
                &&& forall|j: int| 0 <= j < kept.len() ==> 0 <= #[trigger] kept[j] < old.children@.len()
                &&& forall|j: int|
                    0 <= j < kept.len() ==> predicate.ensures(
                        (&old.children@[#[trigger] kept[j]], depth as u64),
                        true,
                    ) && self.children@[j].retained_from(
                        old.children@[kept[j]],
                        predicate,
                        depth + 1,
                    )
                &&& forall|i: int|
                    0 <= i < old.children@.len() && !kept.contains(i) ==> predicate.ensures(
                        (&#[trigger] old.children@[i], depth as u64),
                        false,
                    )
            }
    }

    /// What `retained_from` says, one level at a time, over the node's name, size and children.
    pub proof fn lemma_retained_from_unfold<Predicate: Fn(&DataTree<Name>, u64) -> bool>(
        &self,
        old: DataTree<Name>,
        predicate: Predicate,
        depth: int,
    )
        ensures
            self.retained_from(old, predicate, depth) <==> ({
                &&& self.spec_name() == old.spec_name()
                &&& self.spec_size() == old.spec_size()
                &&& exists|kept: Seq<int>|
                    {
                        &&& kept.len() == self.spec_children().len()
                        &&& forall|a: int, b: int| 0 <= a < b < kept.len() ==> kept[a] < kept[b]
                        &&& forall|j: int| 0 <= j < kept.len() ==> 0 <= #[trigger] kept[j] < old.spec_children().len()
                        &&& forall|j: int|
                            0 <= j < kept.len() ==> predicate.ensures(
                                (&old.spec_children()[#[trigger] kept[j]], depth as u64),
                                true,
                            ) && self.spec_children()[j].retained_from(
                                old.spec_children()[kept[j]],
                                predicate,
                                depth + 1,
                            )
                        &&& forall|i: int|
                            0 <= i < old.spec_children().len() && !kept.contains(i) ==> predicate.ensures(
                                (&#[trigger] old.spec_children()[i], depth as u64),
                                false,
                            )
                    }
            }),
    {
    }

    /// Internal function to be used by [`Self::par_retain`].
    fn par_retain_with_depth<Predicate>(&mut self, current_depth: u64, predicate: Predicate) where
        Name: Send,
        Predicate: Fn(&Self, u64) -> bool + Copy + Sync + Send,

        requires
            old(self).depth_fits(current_depth as int),
            Self::predicate_callable(predicate),
        ensures
            final(self).retained_from(*old(self), predicate, current_depth as int),
            old(self).wf() ==> final(self).wf(),
        decreases *old(self),
    {
        let whole: Ghost<Self> = Ghost(*self);
        let mut children: Vec<Self> = Vec::new();
        std::mem::swap(&mut children, &mut self.children);
        let ghost old_children = children@;
        let next_depth = current_depth + 1;
        let mut retained: Vec<Self> = Vec::new();
        let ghost mut kept: Seq<int> = Seq::empty();
        for child in it: children.into_iter()
            invariant
                it.seq() == old_children,
                old_children == old(self).children@,
                Self::predicate_callable(predicate),
                kept.len() == retained@.len(),
                forall|a: int, b: int| 0 <= a < b < kept.len() ==> kept[a] < kept[b],
                forall|j: int| 0 <= j < kept.len() ==> 0 <= #[trigger] kept[j] < it.index(),
                forall|j: int|
                    0 <= j < kept.len() ==> predicate.ensures(
                        (&old_children[#[trigger] kept[j]], current_depth),
                        true,
                    ) && retained@[j] == old_children[kept[j]],
                forall|i: int|
                    0 <= i < it.index() && !kept.contains(i) ==> predicate.ensures(
                        (&#[trigger] old_children[i], current_depth),
                        false,
                    ),
                total_size(retained@) <= total_size(old_children.take(it.index() as int)),
        {
            let ghost k = it.index() as int;
            proof {
                lemma_total_size_prefix(old_children, k);
                lemma_total_size_prefix(old_children, k + 1);
            }
            if predicate(&child, current_depth) {
                proof {
                    lemma_total_size_push(retained@, child);
                }
                retained.push(child);
                proof {
                    let ghost old_kept = kept;
                    kept = kept.push(k);
                    assert(kept.contains(k)) by {
                        assert(kept[kept.len() - 1] == k);
                    }
                    assert forall|i: int| 0 <= i < k + 1 && !kept.contains(i) implies predicate.ensures(
                        (&#[trigger] old_children[i], current_depth),
                        false,
                    ) by {
                        if old_kept.contains(i) {
                            let w = choose|w: int| 0 <= w < old_kept.len() && old_kept[w] == i;
                            assert(kept[w] == i);
                        }
                    }
                }
            } else {
                proof {
                    assert(predicate.ensures((&old_children[k], current_depth), false));
                }
            }
        }
        proof {
            assert(old_children.take(old_children.len() as int) =~= old_children);
            assert forall|j: int| 0 <= j < retained@.len() implies {
                &&& decreases_to!(whole@ => retained@[j])
                &&& (#[trigger] retained@[j]).depth_fits(next_depth as int)
            } by {
                whole@.lemma_child_decreases(kept[j]);
                assert(old(self).children@[kept[j]].depth_fits(current_depth + 1));
            }
        }
        let cull_child = move |child: Self| -> (culled: Self)
            requires
                decreases_to!(whole@ => child),
                child.depth_fits(next_depth as int),
                Self::predicate_callable(predicate),
            ensures
                culled.retained_from(child, predicate, next_depth as int),
                child.wf() ==> culled.wf(),
                culled.spec_size() == child.spec_size(),
            {
                let mut child = child;
                child.par_retain_with_depth(next_depth, predicate);
                child
            };
        let culled = par_map(retained, cull_child);
        let ghost unculled = retained@;
        self.children = culled;
        proof {
            assert forall|j: int| 0 <= j < kept.len() implies (#[trigger] self.children@[j]).retained_from(
                old_children[kept[j]],
                predicate,
                current_depth + 1,
            ) by {
                assert(unculled[j] == old_children[kept[j]]);
            }
            assert(self.retained_from(*old(self), predicate, current_depth as int));
            if old(self).wf() {
                assert forall|j: int| 0 <= j < self.children@.len() implies (#[trigger] self.children@[j]).wf() by {
                    assert(unculled[j] == old_children[kept[j]]);
                    assert(old(self).children@[kept[j]].wf());
                }
                assert forall|j: int| 0 <= j < self.children@.len() implies #[trigger] self.children@[j].spec_size()
                    == unculled[j].spec_size() by {
                }
                lemma_total_size_pointwise(self.children@, unculled);
            }
        }
    }

    /// Recursively cull all descendants that do not satisfy given `predicate`.
    pub fn par_retain<Predicate>(&mut self, predicate: Predicate) where
        Name: Send,
        Predicate: Fn(&Self, u64) -> bool + Copy + Sync + Send,

        requires
            old(self).depth_fits(0),
            Self::predicate_callable(predicate),
        ensures
            final(self).retained_from(*old(self), predicate, 0),
            old(self).wf() ==> final(self).wf(),
    {
        self.par_retain_with_depth(0, predicate)
    }

    /// Process the tree via [`par_retain`](Self::par_retain) method.
    pub fn into_par_retained<Predicate>(self, predicate: Predicate) -> (tree: Self) where
        Name: Send,
        Predicate: Fn(&Self, u64) -> bool + Copy + Sync + Send,

        requires
            self.depth_fits(0),
            Self::predicate_callable(predicate),
        ensures
            tree.retained_from(self, predicate, 0),
            self.wf() ==> tree.wf(),
    {
        let mut tree = self;
        tree.par_retain(predicate);
        tree
    }
}

/// A strictly increasing sequence of indices below `n` that holds every
/// index below `n` is `0, 1, ..., n - 1`.
proof fn lemma_all_kept(kept: Seq<int>, n: int)
    requires
        0 <= n,
        forall|a: int, b: int| 0 <= a < b < kept.len() ==> kept[a] < kept[b],
        forall|j: int| 0 <= j < kept.len() ==> 0 <= #[trigger] kept[j] < n,
        forall|i: int| 0 <= i < n ==> kept.contains(i),
    ensures
        kept.len() == n,
        forall|j: int| 0 <= j < n ==> #[trigger] kept[j] == j,
{
    lemma_kept_prefix(kept, n, kept.len() as int);
    if kept.len() > 0 {
        let last = kept.len() - 1;
        assert(kept[last] == last);
        assert(kept[last] < n);
    }
    if n > 0 {
        assert(kept.contains(n - 1));
        let p = choose|p: int| 0 <= p < kept.len() && kept[p] == n - 1;
        assert(kept[p] == p);
    }
}

/// The first `count` entries of such a sequence are `0, 1, ..., count - 1`.
proof fn lemma_kept_prefix(kept: Seq<int>, n: int, count: int)
    requires
        0 <= count <= kept.len(),
        forall|a: int, b: int| 0 <= a < b < kept.len() ==> kept[a] < kept[b],
        forall|j: int| 0 <= j < kept.len() ==> 0 <= #[trigger] kept[j] < n,
        forall|i: int| 0 <= i < n ==> kept.contains(i),
    ensures
        forall|j: int| 0 <= j < count ==> #[trigger] kept[j] == j,
    decreases count,
{
    if count > 0 {
        let j = count - 1;
        lemma_kept_prefix(kept, n, j);
        if j > 0 {
            assert(kept[j - 1] == j - 1);
            assert(kept[j - 1] < kept[j]);
        }
        assert(kept[j] >= j);
        assert(kept[j] < n);
        assert(kept.contains(j));
        let p = choose|p: int| 0 <= p < kept.len() && kept[p] == j;
        if p < j {
            assert(kept[p] == p);
        }
        if p > j {
            assert(kept[j] < kept[p]);
        }
    }
}

impl<Name> DataTree<Name> {
    /// This tree is `old` cut to `levels` levels below its root: its name
    /// and size are those of `old`, and, where `levels` is at least one, its
    /// children are those of `old`, each cut to one level less; otherwise it
    /// has none.
    pub closed spec fn keeps_levels(&self, old: DataTree<Name>, levels: int) -> bool
        decreases old,
    {
        &&& self.name == old.name
        &&& self.size == old.size
        &&& if levels >= 1 {
            &&& self.children@.len() == old.children@.len()
            &&& forall|i: int|
                0 <= i < old.children@.len() ==> (#[trigger] self.children@[i]).keeps_levels(
                    old.children@[i],
                    levels - 1,
                )
        } else {
            self.children@.len() == 0
        }
    }

    /// What `keeps_levels` says, one level at a time, over the node's name, size and children.
    pub proof fn lemma_keeps_levels_unfold(&self, old: DataTree<Name>, levels: int)
        ensures
            self.keeps_levels(old, levels) <==> ({
                &&& self.spec_name() == old.spec_name()
                &&& self.spec_size() == old.spec_size()
                &&& if levels >= 1 {
                    &&& self.spec_children().len() == old.spec_children().len()
                    &&& forall|i: int|
                        0 <= i < old.spec_children().len() ==> (#[trigger] self.spec_children()[i]).keeps_levels(
                            old.spec_children()[i],
                            levels - 1,
                        )
                } else {
                    self.spec_children().len() == 0
                }
            }),
    {
    }

    /// Culling by a predicate that keeps exactly the nodes whose depth plus
    /// one is below `limit` cuts the tree to the levels above `limit`.
    pub proof fn lemma_retained_levels<Predicate: Fn(&DataTree<Name>, u64) -> bool>(
        &self,
        old: DataTree<Name>,
        predicate: Predicate,
        depth: int,
        limit: int,
    )
        requires
            self.retained_from(old, predicate, depth),
            old.depth_fits(depth),
            forall|tree: &DataTree<Name>, d: u64, keep: bool|
                #[trigger] predicate.ensures((tree, d), keep) ==> keep == (d + 1 < limit),
        ensures
            self.keeps_levels(old, limit - depth - 1),
        decreases old,
    {
        let kept = choose|kept: Seq<int>|
            {
                &&& kept.len() == self.children@.len()
                &&& forall|a: int, b: int| 0 <= a < b < kept.len() ==> kept[a] < kept[b]
                &&& forall|j: int| 0 <= j < kept.len() ==> 0 <= #[trigger] kept[j] < old.children@.len()
                &&& forall|j: int|
                    0 <= j < kept.len() ==> predicate.ensures(
                        (&old.children@[#[trigger] kept[j]], depth as u64),
                        true,
                    ) && self.children@[j].retained_from(
                        old.children@[kept[j]],
                        predicate,
                        depth + 1,
                    )
                &&& forall|i: int|
                    0 <= i < old.children@.len() && !kept.contains(i) ==> predicate.ensures(
                        (&#[trigger] old.children@[i], depth as u64),
                        false,
                    )
            };
        let n = old.children@.len() as int;
        if depth + 1 < limit {
            assert forall|i: int| 0 <= i < n implies kept.contains(i) by {
                if !kept.contains(i) {
                    assert(predicate.ensures((&old.children@[i], depth as u64), false));
                }
            }
            lemma_all_kept(kept, n);
            assert forall|i: int| 0 <= i < n implies (#[trigger] self.children@[i]).keeps_levels(
                old.children@[i],
                limit - depth - 1 - 1,
            ) by {
                assert(kept[i] == i);
                assert(old.children@[i].depth_fits(depth + 1));
                self.children@[i].lemma_retained_levels(old.children@[i], predicate, depth + 1, limit);
            }
        } else {
            if kept.len() > 0 {
                assert(predicate.ensures((&old.children@[kept[0]], depth as u64), true));
            }
        }
    }
}

} // verus!
