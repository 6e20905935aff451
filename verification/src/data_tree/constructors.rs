use super::{lemma_total_size_prefix, total_size, DataTree};
use vstd::prelude::*;

verus! {

impl<Name> DataTree<Name> {
    /// Create a tree representation of a directory: its size is the size
    /// of the directory's own inode plus the sizes of its children.
    pub fn dir(name: Name, inode_size: u64, children: Vec<Self>) -> (tree: Self)
        requires
            inode_size + total_size(children@) <= u64::MAX,
        ensures
            tree.is_node(name, inode_size + total_size(children@), children@),
            (forall|i: int| 0 <= i < children@.len() ==> (#[trigger] children@[i]).wf())
                ==> tree.wf(),
    {
        let mut sum: u64 = 0;
        let len = children.len();
        for i in 0..len
            invariant
                len == children@.len(),
                sum == total_size(children@.take(i as int)),
                inode_size + total_size(children@) <= u64::MAX,
        {
            proof {
                lemma_total_size_prefix(children@, i as int);
                lemma_total_size_prefix(children@, i + 1);
            }
            sum = sum + children[i].size;
        }
        proof {
            assert(children@.take(len as int) =~= children@);
        }
        DataTree { name, size: inode_size + sum, children }
    }

    /// Create a tree representation of a file.
    pub fn file(name: Name, size: u64) -> (tree: Self)
        ensures
            tree.is_node(name, size as int, Seq::empty()),
            tree.wf(),
    {
        let tree = DataTree { name, size, children: Vec::new() };
        assert(total_size(tree.children@) == 0);
        tree
    }

    /// Create a directory constructor of fixed inode size: for every name
    /// and children it accepts what [`DataTree::dir`] accepts with that inode
    /// size, and promises what `dir` promises.
    pub fn fixed_size_dir_constructor(inode_size: u64) -> (constructor: impl Fn(Name, Vec<Self>) -> Self)
        ensures
            forall|name: Name, children: Vec<Self>|
                inode_size + total_size(children@) <= u64::MAX ==> #[trigger] constructor.requires(
                    (name, children),
                ),
            forall|name: Name, children: Vec<Self>, tree: Self| #[trigger]
                constructor.ensures((name, children), tree) ==> tree.is_node(
                    name,
                    inode_size + total_size(children@),
                    children@,
                ) && ((forall|i: int| 0 <= i < children@.len() ==> (#[trigger] children@[i]).wf())
                    ==> tree.wf()),
    {
        move |name: Name, children: Vec<Self>| -> (tree: Self)
            requires
                inode_size + total_size(children@) <= u64::MAX,
            ensures
                tree.is_node(name, inode_size + total_size(children@), children@),
                (forall|i: int| 0 <= i < children@.len() ==> (#[trigger] children@[i]).wf())
                    ==> tree.wf(),
            { DataTree::dir(name, inode_size, children) }
    }
}

/// A node of a tree read from the filesystem: a directory of `size` of its
/// own with `children`, at `depth` below the root. Its size counts the
/// children; below `max_depth` its children are cut off, and their sizes
/// still count toward its total.
pub fn assemble_node<Name>(name: Name, size: u64, children: Vec<DataTree<Name>>, depth: u64, max_depth: u64) -> (node: DataTree<Name>)
    requires
        size + total_size(children@) <= u64::MAX,
    ensures
        node.spec_name() == name,
        node.spec_size() == size + total_size(children@),
        node.spec_children() == (if depth + 1 >= max_depth {
            Seq::<DataTree<Name>>::empty()
        } else {
            children@
        }),
        depth + 1 >= max_depth ==> node.wf(),
        (forall|i: int| 0 <= i < children@.len() ==> (#[trigger] children@[i]).wf()) ==> node.wf(),
{
    let tree = DataTree::dir(name, size, children);
    if max_depth == 0 || depth >= max_depth - 1 {
        let node = DataTree { name: tree.name, size: tree.size, children: Vec::new() };
        assert(total_size(node.children@) == 0);
        node
    } else {
        tree
    }
}

} // verus!
