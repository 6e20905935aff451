use vstd::prelude::*;

pub mod reflection;

pub use constructors::assemble_node;
pub use reflection::Reflection;

mod constructors;
mod getters;
pub mod hardlink;
mod retain;
mod sort;
pub mod partial_reduce;

verus! {

/// Disk usage data of a filesystem tree.
///
/// The fields are private: every value is built by the constructors and
/// operations of this module. The constructors make a node no smaller than
/// its children together (see [`DataTree::wf`]), and culling, sorting and
/// reducing keep it so; deducting the sizes shared by hardlinks may not.
#[derive(Debug, PartialEq, Eq)]
pub struct DataTree<Name> {
    name: Name,
    size: u64,
    children: Vec<DataTree<Name>>,
}

impl<Name> DataTree<Name> {
    /// The name of the node.
    pub closed spec fn spec_name(&self) -> Name {
        self.name
    }

    /// The size of the node: its own size plus everything below it.
    pub closed spec fn spec_size(&self) -> u64 {
        self.size
    }

    /// The children of the node, in order.
    pub closed spec fn spec_children(&self) -> Seq<DataTree<Name>> {
        self.children@
    }

    /// Well-formedness: at every node, the size is at least the total size
    /// of the children.
    pub closed spec fn wf(&self) -> bool
        decreases self,
    {
        &&& self.size >= total_size(self.children@)
        &&& forall|i: int|
            0 <= i < self.children@.len() ==> (#[trigger] self.children@[i]).wf()
    }

    /// At every node, the total size of the children fits in a `u64`.
    pub closed spec fn sums_fit(&self) -> bool
        decreases self,
    {
        &&& total_size(self.children@) <= u64::MAX
        &&& forall|i: int|
            0 <= i < self.children@.len() ==> (#[trigger] self.children@[i]).sums_fit()
    }

    /// The sums of a well-formed tree fit, since no node is smaller than
    /// its children together.
    pub proof fn lemma_wf_sums_fit(&self)
        requires
            self.wf(),
        ensures
            self.sums_fit(),
        decreases self,
    {
        assert forall|i: int| 0 <= i < self.children@.len() implies (
        #[trigger] self.children@[i]).sums_fit() by {
            self.children@[i].lemma_wf_sums_fit();
        }
    }

    /// What [`DataTree::wf`] means, one level at a time.
    pub broadcast proof fn lemma_wf_unfold(&self)
        ensures
            #[trigger] self.wf() <==> (self.spec_size() >= total_size(self.spec_children())
                && forall|i: int|
                0 <= i < self.spec_children().len() ==> (#[trigger] self.spec_children()[i]).wf()),
    {
    }

    /// A node holds exactly the given name, size and children.
    pub open spec fn is_node(&self, name: Name, size: int, children: Seq<DataTree<Name>>) -> bool {
        &&& self.spec_name() == name
        &&& self.spec_size() == size
        &&& self.spec_children() == children
    }

    /// A depth counter that starts at `depth` on this node and grows by one
    /// at each level below it stays under `u64::MAX` at every node.
    pub closed spec fn depth_fits(&self, depth: int) -> bool
        decreases self,
    {
        &&& 0 <= depth < u64::MAX
        &&& forall|i: int|
            0 <= i < self.children@.len() ==> (#[trigger] self.children@[i]).depth_fits(depth + 1)
    }

    /// The names of the nodes without children, from left to right.
    pub closed spec fn leaves(&self) -> Seq<Name>
        decreases self, self.spec_children().len() + 1,
    {
        if self.children@.len() == 0 {
            seq![self.name]
        } else {
            self.leaves_of_children(self.children@.len())
        }
    }

    /// The leaves under the first `count` children, from left to right.
    pub closed spec fn leaves_of_children(&self, count: nat) -> Seq<Name>
        decreases self, count,
    {
        if count == 0 || count > self.children@.len() {
            seq![]
        } else {
            self.leaves_of_children((count - 1) as nat) + self.children@[count - 1].leaves()
        }
    }

    /// Each child is smaller than its parent, for recursion over a tree.
    pub proof fn lemma_child_decreases(&self, i: int)
        requires
            0 <= i < self.spec_children().len(),
        ensures
            decreases_to!(self => self.spec_children()[i]),
    {
        assert(decreases_to!(self => self.children));
        assert(decreases_to!(self.children => self.children@));
        assert(decreases_to!(self.children@ => self.children@[i]));
    }

    /// A depth counter fits at a node when it fits there and one level
    /// deeper at each child.
    pub proof fn lemma_depth_fits_node(&self, depth: int)
        requires
            0 <= depth < u64::MAX,
            forall|i: int|
                0 <= i < self.spec_children().len() ==> (#[trigger] self.spec_children()[i]).depth_fits(
                    depth + 1,
                ),
        ensures
            self.depth_fits(depth),
    {
        assert forall|i: int| 0 <= i < self.children@.len() implies (
        #[trigger] self.children@[i]).depth_fits(depth + 1) by {
            assert(self.spec_children()[i] == self.children@[i]);
        }
    }

    /// What [`DataTree::leaves`] means, one level at a time.
    pub proof fn lemma_leaves_unfold(&self)
        ensures
            self.spec_children().len() == 0 ==> self.leaves() == seq![self.spec_name()],
            self.spec_children().len() > 0 ==> self.leaves() == self.leaves_of_children(
                self.spec_children().len(),
            ),
            self.leaves_of_children(0) == Seq::<Name>::empty(),
    {
    }

    /// The leaves under one more child are those under the child added.
    pub proof fn lemma_leaves_of_children_step(&self, count: nat)
        requires
            0 < count <= self.spec_children().len(),
        ensures
            self.leaves_of_children(count) == self.leaves_of_children((count - 1) as nat)
                + self.spec_children()[count - 1].leaves(),
    {
    }

    /// The names on the way from this node down to each node without
    /// children, from left to right.
    pub closed spec fn leaf_paths(&self) -> Seq<Seq<Name>>
        decreases self, self.spec_children().len() + 1,
    {
        if self.children@.len() == 0 {
            seq![seq![self.name]]
        } else {
            self.leaf_paths_of_children(self.children@.len()).map_values(
                |path: Seq<Name>| seq![self.name] + path,
            )
        }
    }

    /// The leaf paths of the first `count` children, from left to right.
    pub closed spec fn leaf_paths_of_children(&self, count: nat) -> Seq<Seq<Name>>
        decreases self, count,
    {
        if count == 0 || count > self.children@.len() {
            seq![]
        } else {
            self.leaf_paths_of_children((count - 1) as nat) + self.children@[count - 1].leaf_paths()
        }
    }

    /// What [`DataTree::leaf_paths`] means, one level at a time.
    pub proof fn lemma_leaf_paths_unfold(&self)
        ensures
            self.spec_children().len() == 0 ==> self.leaf_paths() == seq![seq![self.spec_name()]],
            self.spec_children().len() > 0 ==> self.leaf_paths() == self.leaf_paths_of_children(
                self.spec_children().len(),
            ).map_values(|path: Seq<Name>| seq![self.spec_name()] + path),
            self.leaf_paths_of_children(0) == Seq::<Seq<Name>>::empty(),
    {
    }

    /// The leaf paths under one more child are those of the child added.
    pub proof fn lemma_leaf_paths_of_children_step(&self, count: nat)
        requires
            0 < count <= self.spec_children().len(),
        ensures
            self.leaf_paths_of_children(count) == self.leaf_paths_of_children((count - 1) as nat)
                + self.spec_children()[count - 1].leaf_paths(),
    {
    }
}

/// Sum of the sizes of a sequence of trees.
pub open spec fn total_size<Name>(trees: Seq<DataTree<Name>>) -> int
    decreases trees.len(),
{
    if trees.len() == 0 {
        0
    } else {
        total_size(trees.drop_last()) + trees.last().spec_size()
    }
}

/// The total of a prefix is at most the total of the whole sequence.
pub proof fn lemma_total_size_prefix<Name>(trees: Seq<DataTree<Name>>, k: int)
    requires
        0 <= k <= trees.len(),
    ensures
        0 <= total_size(trees.take(k)) <= total_size(trees),
        k < trees.len() ==> total_size(trees.take(k + 1)) == total_size(trees.take(k))
            + trees[k].spec_size(),
    decreases trees.len(),
{
    if k == trees.len() {
        assert(trees.take(k) =~= trees);
        lemma_total_size_nonneg(trees);
    } else {
        lemma_total_size_prefix(trees.drop_last(), k);
        assert(trees.drop_last().take(k) =~= trees.take(k));
        assert(trees.take(k + 1).drop_last() =~= trees.take(k));
        if k + 1 < trees.len() {
            lemma_total_size_prefix(trees.drop_last(), k + 1);
            assert(trees.drop_last().take(k + 1) =~= trees.take(k + 1));
        } else {
            assert(trees.take(k + 1) =~= trees);
        }
    }
}

/// Sizes are never negative, so neither is their total.
pub proof fn lemma_total_size_nonneg<Name>(trees: Seq<DataTree<Name>>)
    ensures
        total_size(trees) >= 0,
    decreases trees.len(),
{
    if trees.len() > 0 {
        lemma_total_size_nonneg(trees.drop_last());
    }
}

/// Appending a tree adds its size to the total.
pub proof fn lemma_total_size_push<Name>(trees: Seq<DataTree<Name>>, tree: DataTree<Name>)
    ensures
        total_size(trees.push(tree)) == total_size(trees) + tree.spec_size(),
{
    assert(trees.push(tree).drop_last() =~= trees);
}

/// Sequences of trees of equal sizes, one for one, have equal totals.
pub proof fn lemma_total_size_pointwise<Name>(a: Seq<DataTree<Name>>, b: Seq<DataTree<Name>>)
    requires
        a.len() == b.len(),
        forall|i: int| 0 <= i < a.len() ==> #[trigger] a[i].spec_size() == b[i].spec_size(),
    ensures
        total_size(a) == total_size(b),
    decreases a.len(),
{
    if a.len() > 0 {
        lemma_total_size_pointwise(a.drop_last(), b.drop_last());
    }
}

/// Removing a tree subtracts its size from the total.
pub proof fn lemma_total_size_remove<Name>(trees: Seq<DataTree<Name>>, k: int)
    requires
        0 <= k < trees.len(),
    ensures
        total_size(trees) == total_size(trees.remove(k)) + trees[k].spec_size(),
    decreases trees.len(),
{
    if k == trees.len() - 1 {
        assert(trees.remove(k) =~= trees.drop_last());
    } else {
        lemma_total_size_remove(trees.drop_last(), k);
        assert(trees.remove(k).drop_last() =~= trees.drop_last().remove(k));
        assert(trees.remove(k).last() == trees.last());
    }
}

/// Rearranging trees keeps their total.
pub proof fn lemma_total_size_permutation<Name>(
    result: Seq<DataTree<Name>>,
    input: Seq<DataTree<Name>>,
    perm: Seq<int>,
)
    requires
        crate::total_order::is_permutation(perm, input.len()),
        result.len() == input.len(),
        forall|i: int| 0 <= i < result.len() ==> #[trigger] result[i] == input[perm[i]],
    ensures
        total_size(result) == total_size(input),
    decreases input.len(),
{
    let n = input.len() as int;
    if n > 0 {
        let k = perm[n - 1];
        let rest_input = input.remove(k);
        let rest_result = result.drop_last();
        let rest_perm = Seq::new(
            (n - 1) as nat,
            |i: int| if perm[i] < k { perm[i] } else { perm[i] - 1 },
        );
        assert forall|i: int| 0 <= i < n - 1 implies #[trigger] rest_result[i] == rest_input[rest_perm[i]] by {
            assert(perm[i] != k);
            assert(result[i] == input[perm[i]]);
        }
        assert forall|i: int, j: int| 0 <= i < j < n - 1 implies rest_perm[i] != rest_perm[j] by {
            assert(perm[i] != perm[j]);
            assert(perm[i] != k && perm[j] != k);
        }
        assert forall|i: int| 0 <= i < n - 1 implies 0 <= #[trigger] rest_perm[i] < n - 1 by {
            assert(perm[i] != k);
        }
        lemma_total_size_permutation(rest_result, rest_input, rest_perm);
        lemma_total_size_remove(input, k);
        assert(result.last() == input[k]);
    }
}

} // verus!
