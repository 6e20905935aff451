use super::{lemma_total_size_push, total_size, DataTree};
use crate::parallel::par_map;
use crate::path_ops::{debug_path, join, joined_path, path_debug};
use crate::text::{decimal, push_decimal, push_text};
use std::collections::VecDeque;
use vstd::prelude::*;

verus! {

/// Intermediate format used for construction and inspection of a
/// [`DataTree`]'s internal content.
///
/// Unlike `DataTree`, whose fields are private, the fields of `Reflection`
/// are public, so a `Reflection` may break the size rule of `DataTree`;
/// [`Reflection::par_try_into_tree`] checks it.
#[derive(Debug, PartialEq, Eq)]
pub struct Reflection<Name> {
    /// Name of the tree.
    pub name: Name,
    /// Disk usage of a file or total disk usage of a folder.
    pub size: u64,
    /// Data of children filesystem subtrees.
    pub children: Vec<Reflection<Name>>,
}

/// Error that occurs when an attempt to convert a [`Reflection`] into a
/// [`DataTree`] fails.
#[derive(Debug, PartialEq, Eq)]
#[non_exhaustive]
pub enum ConversionError<Name> {
    /// When a node's size is less than the sum of its children.
    ExcessiveChildren {
        /// Path from root to the node.
        path: VecDeque<Name>,
        /// Size hold by the node.
        size: u64,
        /// Children of the node.
        children: Vec<Reflection<Name>>,
        /// Sum of size hold by children of the node.
        children_sum: u64,
    },
}

/// Sum of the sizes of a sequence of reflections.
pub open spec fn reflection_total_size<Name>(trees: Seq<Reflection<Name>>) -> int
    decreases trees.len(),
{
    if trees.len() == 0 {
        0
    } else {
        reflection_total_size(trees.drop_last()) + trees.last().size
    }
}

impl<Name> Reflection<Name> {
    /// Every node holds at least the total size of its children.
    pub open spec fn is_valid(&self) -> bool
        decreases self,
    {
        &&& self.size >= reflection_total_size(self.children@)
        &&& forall|i: int|
            0 <= i < self.children@.len() ==> (#[trigger] self.children@[i]).is_valid()
    }

    /// The totals of children that a conversion adds up fit in a `u64`: at
    /// this node, and below it wherever the conversion goes on.
    pub open spec fn sums_fit(&self) -> bool
        decreases self,
    {
        &&& reflection_total_size(self.children@) <= u64::MAX
        &&& self.size >= reflection_total_size(self.children@) ==> forall|i: int|
            0 <= i < self.children@.len() ==> (#[trigger] self.children@[i]).sums_fit()
    }

    /// `path` leads from this node, through nodes that pass the size rule, to
    /// a node that breaks it and that holds `size`, `children` and
    /// `children_sum`.
    pub open spec fn locates_excess(
        &self,
        path: Seq<Name>,
        size: u64,
        children: Seq<Reflection<Name>>,
        children_sum: u64,
    ) -> bool
        decreases self,
    {
        &&& path.len() >= 1
        &&& path[0] == self.name
        &&& if path.len() == 1 {
            &&& self.size < reflection_total_size(self.children@)
            &&& size == self.size
            &&& children == self.children@
            &&& children_sum == reflection_total_size(self.children@)
        } else {
            &&& self.size >= reflection_total_size(self.children@)
            &&& exists|i: int|
                0 <= i < self.children@.len() && (#[trigger] self.children@[i]).locates_excess(
                    path.drop_first(),
                    size,
                    children,
                    children_sum,
                )
        }
    }
}

/// The total of a prefix is at most the total of the whole sequence.
pub proof fn lemma_reflection_total_size_prefix<Name>(trees: Seq<Reflection<Name>>, k: int)
    requires
        0 <= k <= trees.len(),
    ensures
        0 <= reflection_total_size(trees.take(k)) <= reflection_total_size(trees),
        k < trees.len() ==> reflection_total_size(trees.take(k + 1)) == reflection_total_size(
            trees.take(k),
        ) + trees[k].size,
    decreases trees.len(),
{
    if k == trees.len() {
        assert(trees.take(k) =~= trees);
        lemma_reflection_total_size_nonneg(trees);
    } else {
        lemma_reflection_total_size_prefix(trees.drop_last(), k);
        assert(trees.drop_last().take(k) =~= trees.take(k));
        assert(trees.take(k + 1).drop_last() =~= trees.take(k));
        if k + 1 < trees.len() {
            lemma_reflection_total_size_prefix(trees.drop_last(), k + 1);
            assert(trees.drop_last().take(k + 1) =~= trees.take(k + 1));
        } else {
            assert(trees.take(k + 1) =~= trees);
        }
    }
}

/// Sizes are never negative, so neither is their total.
pub proof fn lemma_reflection_total_size_nonneg<Name>(trees: Seq<Reflection<Name>>)
    ensures
        reflection_total_size(trees) >= 0,
    decreases trees.len(),
{
    if trees.len() > 0 {
        lemma_reflection_total_size_nonneg(trees.drop_last());
    }
}

/// Trees and reflections of equal sizes, one for one, have equal totals.
pub proof fn lemma_totals_agree<Name>(trees: Seq<DataTree<Name>>, reflections: Seq<Reflection<Name>>)
    requires
        trees.len() == reflections.len(),
        forall|i: int| 0 <= i < trees.len() ==> #[trigger] trees[i].spec_size() == reflections[i].size,
    ensures
        total_size(trees) == reflection_total_size(reflections),
    decreases trees.len(),
{
    if trees.len() > 0 {
        lemma_totals_agree(trees.drop_last(), reflections.drop_last());
    }
}

impl<Name> Reflection<Name> {
    /// `transform` may be called on the name and size of every node.
    pub open spec fn transform_callable<TargetName, Error, Transform: Fn(Name, u64) -> Result<
        (TargetName, u64),
        Error,
    >>(&self, transform: Transform) -> bool
        decreases self,
    {
        &&& transform.requires((self.name, self.size))
        &&& forall|i: int|
            0 <= i < self.children@.len() ==> (#[trigger] self.children@[i]).transform_callable(
                transform,
            )
    }

    /// `target` has the shape of this tree, and each of its nodes holds what a
    /// call of `transform` on the name and size of the matching node returned.
    pub open spec fn mapped_into<TargetName, Error, Transform: Fn(Name, u64) -> Result<
        (TargetName, u64),
        Error,
    >>(&self, target: Reflection<TargetName>, transform: Transform) -> bool
        decreases self,
    {
        &&& transform.ensures((self.name, self.size), Ok((target.name, target.size)))
        &&& target.children@.len() == self.children@.len()
        &&& forall|i: int|
            0 <= i < self.children@.len() ==> (#[trigger] self.children@[i]).mapped_into(
                target.children@[i],
                transform,
            )
    }

    /// Some node of this tree is one on which a call of `transform` may
    /// return `error`.
    pub open spec fn fails_with<TargetName, Error, Transform: Fn(Name, u64) -> Result<
        (TargetName, u64),
        Error,
    >>(&self, transform: Transform, error: Error) -> bool
        decreases self,
    {
        ||| transform.ensures((self.name, self.size), Err(error))
        ||| exists|i: int|
            0 <= i < self.children@.len() && (#[trigger] self.children@[i]).fails_with(
                transform,
                error,
            )
    }

    /// Attempt to transform names and sizes.
    ///
    /// On success every node has been transformed; on failure the error is
    /// one that `transform` returned on some node.
    pub fn par_try_map<TargetName, Error, Transform>(self, transform: Transform) -> (res: Result<
        Reflection<TargetName>,
        Error,
    >) where
        Name: Send,
        TargetName: Send,
        Error: Send,
        Transform: Fn(Name, u64) -> Result<(TargetName, u64), Error> + Copy + Sync + Send,

        requires
            self.transform_callable(transform),
        ensures
            res matches Ok(target) ==> self.mapped_into(target, transform),
            res matches Err(error) ==> self.fails_with(transform, error),
        decreases self,
    {
        let whole: Ghost<Self> = Ghost(self);
        let Reflection { name, size, children } = self;
        let ghost old_children = children@;
        proof {
            assert forall|j: int| 0 <= j < old_children.len() implies decreases_to!(
                whole@ => old_children[j]
            ) by {
                assert(decreases_to!(whole@ => whole@.children));
                assert(decreases_to!(whole@.children => whole@.children@));
                assert(decreases_to!(whole@.children@ => whole@.children@[j]));
            }
        }
        let map_child = move |child: Self| -> (res: Result<Reflection<TargetName>, Error>)
            requires
                decreases_to!(whole@ => child),
                child.transform_callable(transform),
            ensures
                res matches Ok(target) ==> child.mapped_into(target, transform),
                res matches Err(error) ==> child.fails_with(transform, error),
            { child.par_try_map(transform) };
        let results = par_map(children, map_child);
        let ghost outcomes = results@;
        proof {
            assert forall|j: int| 0 <= j < old_children.len() implies {
                &&& ((#[trigger] outcomes[j]) matches Ok(target) ==> old_children[j].mapped_into(
                    target,
                    transform,
                ))
                &&& (outcomes[j] matches Err(error) ==> old_children[j].fails_with(transform, error))
            } by {
                assert(map_child.ensures((old_children[j],), outcomes[j]));
            }
        }
        let mut mapped: Vec<Reflection<TargetName>> = Vec::new();
        for result in it: results.into_iter()
            invariant
                it.seq() == outcomes,
                outcomes.len() == old_children.len(),
                old_children == self.children@,
                forall|j: int|
                    0 <= j < old_children.len() ==> {
                        &&& ((#[trigger] outcomes[j]) matches Ok(target)
                            ==> old_children[j].mapped_into(target, transform))
                        &&& (outcomes[j] matches Err(error) ==> old_children[j].fails_with(
                            transform,
                            error,
                        ))
                    },
                mapped@.len() == it.index(),
                forall|j: int|
                    0 <= j < mapped@.len() ==> (#[trigger] old_children[j]).mapped_into(
                        mapped@[j],
                        transform,
                    ),
        {
            let ghost k = it.index();
            assert(result == outcomes[k]);
            match result {
                Ok(target) => mapped.push(target),
                Err(error) => {
                    proof {
                        assert(self.children@[k].fails_with(transform, error));
                    }
                    return Err(error);
                },
            }
        }
        match transform(name, size) {
            Ok((name, size)) => {
                let target = Reflection { name, size, children: mapped };
                proof {
                    assert forall|j: int| 0 <= j < self.children@.len() implies (#[trigger] self.children@[j]).mapped_into(
                        target.children@[j],
                        transform,
                    ) by {
                        assert(old_children[j].mapped_into(mapped@[j], transform));
                    }
                }
                Ok(target)
            },
            Err(error) => Err(error),
        }
    }
}

impl<Name> DataTree<Name> {
    /// `reflection` holds the same names, sizes and shape as this tree.
    pub closed spec fn reflects_into(&self, reflection: Reflection<Name>) -> bool
        decreases self,
    {
        &&& reflection.name == self.name
        &&& reflection.size == self.size
        &&& reflection.children@.len() == self.children@.len()
        &&& forall|i: int|
            0 <= i < self.children@.len() ==> (#[trigger] self.children@[i]).reflects_into(
                reflection.children@[i],
            )
    }

    /// What `reflects_into` says, one level at a time, over the node's name, size and children.
    pub proof fn lemma_reflects_into_unfold(&self, reflection: Reflection<Name>)
        ensures
            self.reflects_into(reflection) <==> ({
                &&& reflection.name == self.spec_name()
                &&& reflection.size == self.spec_size()
                &&& reflection.children@.len() == self.spec_children().len()
                &&& forall|i: int|
                    0 <= i < self.spec_children().len() ==> (#[trigger] self.spec_children()[i]).reflects_into(
                        reflection.children@[i],
                    )
            }),
    {
    }

    /// Create reflection.
    pub fn into_reflection(self) -> (reflection: Reflection<Name>)
        ensures
            self.reflects_into(reflection),
        decreases self,
    {
        let DataTree { name, size, children } = self;
        let ghost old_children = children@;
        let mut converted: Vec<Reflection<Name>> = Vec::new();
        for child in it: children.into_iter()
            invariant
                it.seq() == old_children,
                old_children == self.children@,
                converted@.len() == it.index(),
                forall|j: int|
                    0 <= j < it.index() ==> (#[trigger] old_children[j]).reflects_into(
                        converted@[j],
                    ),
        {
            converted.push(child.into_reflection());
        }
        Reflection { name, size, children: converted }
    }
}

/// A well-formed tree reflects into a valid reflection whose sums fit, so
/// that [`Reflection::par_try_into_tree`] on what [`DataTree::into_reflection`]
/// gives succeeds, with a tree of the same names, sizes and shape.
pub proof fn lemma_reflection_round_trip<Name>(tree: DataTree<Name>, reflection: Reflection<Name>)
    requires
        tree.wf(),
        tree.reflects_into(reflection),
    ensures
        reflection.is_valid(),
        reflection.sums_fit(),
    decreases tree,
{
    broadcast use DataTree::lemma_wf_unfold;

    let children = tree.children@;
    let reflected = reflection.children@;
    assert forall|i: int| 0 <= i < reflected.len() implies (#[trigger] reflected[i]).is_valid()
        && reflected[i].sums_fit() by {
        assert(children[i].wf());
        assert(children[i].reflects_into(reflected[i]));
        lemma_reflection_round_trip(children[i], reflected[i]);
    }
    assert forall|i: int| 0 <= i < children.len() implies #[trigger] children[i].spec_size()
        == reflected[i].size by {
        assert(children[i].reflects_into(reflected[i]));
    }
    lemma_totals_agree(children, reflected);
}

impl<Name> Reflection<Name> {
    /// Whether the totals that [`Reflection::par_try_into_tree`] adds up fit
    /// in a `u64`.
    pub fn check_sums_fit(&self) -> (fit: bool)
        ensures
            fit == self.sums_fit(),
        decreases self,
    {
        let children = &self.children;
        let len = children.len();
        let mut sum: u64 = 0;
        for i in 0..len
            invariant
                len == children@.len(),
                children@ == self.children@,
                sum == reflection_total_size(children@.take(i as int)),
        {
            proof {
                lemma_reflection_total_size_prefix(children@, i as int);
                lemma_reflection_total_size_prefix(children@, i + 1);
            }
            match sum.checked_add(children[i].size) {
                Some(next) => sum = next,
                None => {
                    proof {
                        assert(reflection_total_size(children@.take(i + 1)) > u64::MAX);
                    }
                    return false;
                },
            }
        }
        proof {
            assert(children@.take(len as int) =~= children@);
        }
        if self.size < sum {
            return true;
        }
        for i in 0..len
            invariant
                len == children@.len(),
                children@ == self.children@,
                forall|j: int| 0 <= j < i ==> (#[trigger] children@[j]).sums_fit(),
                reflection_total_size(children@) <= u64::MAX,
                self.size >= reflection_total_size(children@),
        {
            if !children[i].check_sums_fit() {
                return false;
            }
        }
        true
    }
}

impl<Name: Send> Reflection<Name> {
    /// Attempting to convert a [`Reflection`] into a valid [`DataTree`].
    ///
    /// The conversion succeeds exactly when every node holds at least the
    /// total size of its children; otherwise the error names a path from the
    /// root to a node that does not.
    pub fn par_try_into_tree(self) -> (res: Result<DataTree<Name>, ConversionError<Name>>)
        requires
            self.sums_fit(),
        ensures
            res is Ok <==> self.is_valid(),
            res matches Ok(tree) ==> tree.reflects_into(self) && tree.wf(),
            res matches Err(ConversionError::ExcessiveChildren { path, size, children, children_sum })
                ==> self.locates_excess(path@, size, children@, children_sum),
        decreases self,
    {
        let whole: Ghost<Self> = Ghost(self);
        let Reflection { name, size, children } = self;
        let mut children_sum: u64 = 0;
        let len = children.len();
        for i in 0..len
            invariant
                len == children@.len(),
                children@ == self.children@,
                children_sum == reflection_total_size(children@.take(i as int)),
                reflection_total_size(children@) <= u64::MAX,
        {
            proof {
                lemma_reflection_total_size_prefix(children@, i as int);
                lemma_reflection_total_size_prefix(children@, i + 1);
            }
            children_sum = children_sum + children[i].size;
        }
        proof {
            assert(children@.take(len as int) =~= children@);
        }
        if size < children_sum {
            let mut path: VecDeque<Name> = VecDeque::new();
            path.push_back(name);
            return Err(ConversionError::ExcessiveChildren { path, size, children, children_sum });
        }
        let ghost old_children = children@;
        proof {
            assert forall|j: int| 0 <= j < old_children.len() implies decreases_to!(
                whole@ => old_children[j]
            ) by {
                assert(decreases_to!(whole@ => whole@.children));
                assert(decreases_to!(whole@.children => whole@.children@));
                assert(decreases_to!(whole@.children@ => whole@.children@[j]));
            }
        }
        let convert_child = move |child: Self| -> (res: Result<DataTree<Name>, ConversionError<Name>>)
            requires
                decreases_to!(whole@ => child),
                child.sums_fit(),
            ensures
                res is Ok <==> child.is_valid(),
                res matches Ok(tree) ==> tree.reflects_into(child) && tree.wf(),
                res matches Err(ConversionError::ExcessiveChildren { path, size, children, children_sum })
                    ==> child.locates_excess(path@, size, children@, children_sum),
            { child.par_try_into_tree() };
        let results = par_map(children, convert_child);
        let ghost converted = results@;
        proof {
            assert forall|j: int| 0 <= j < old_children.len() implies {
                &&& ((#[trigger] converted[j]) is Ok <==> old_children[j].is_valid())
                &&& (converted[j] matches Ok(tree) ==> tree.reflects_into(old_children[j]) && tree.wf())
                &&& (converted[j] matches Err(
                    ConversionError::ExcessiveChildren { path, size, children, children_sum },
                ) ==> old_children[j].locates_excess(path@, size, children@, children_sum))
            } by {
                assert(convert_child.ensures((old_children[j],), converted[j]));
            }
        }
        let mut trees: Vec<DataTree<Name>> = Vec::new();
        for result in it: results.into_iter()
            invariant
                it.seq() == converted,
                converted.len() == old_children.len(),
                forall|j: int|
                    0 <= j < old_children.len() ==> {
                        &&& ((#[trigger] converted[j]) is Ok <==> old_children[j].is_valid())
                        &&& (converted[j] matches Ok(tree) ==> tree.reflects_into(old_children[j])
                            && tree.wf())
                        &&& (converted[j] matches Err(
                            ConversionError::ExcessiveChildren { path, size, children, children_sum },
                        ) ==> old_children[j].locates_excess(path@, size, children@, children_sum))
                    },
                old_children == self.children@,
                self.size >= reflection_total_size(old_children),
                size == self.size,
                name == self.name,
                trees@.len() == it.index(),
                forall|j: int|
                    0 <= j < trees@.len() ==> {
                        &&& (#[trigger] trees@[j]).reflects_into(old_children[j])
                        &&& trees@[j].wf()
                        &&& old_children[j].is_valid()
                    },
        {
            let ghost k = it.index();
            assert(result == converted[k]);
            match result {
                Ok(tree) => trees.push(tree),
                Err(ConversionError::ExcessiveChildren { mut path, size, children, children_sum }) => {
                    let ghost child_path = path@;
                    path.push_front(name);
                    proof {
                        assert(path@.drop_first() =~= child_path);
                        assert(old_children[k].locates_excess(child_path, size, children@, children_sum));
                    }
                    return Err(ConversionError::ExcessiveChildren { path, size, children, children_sum });
                },
            }
        }
        assert(trees@.len() == old_children.len());
        proof {
            assert forall|j: int| 0 <= j < trees@.len() implies #[trigger] trees@[j].spec_size()
                == old_children[j].size by {
                assert(trees@[j].reflects_into(old_children[j]));
            }
            lemma_totals_agree(trees@, old_children);
            assert forall|j: int| 0 <= j < self.children@.len() implies (#[trigger] self.children@[j]).is_valid() by {
                assert(trees@[j].wf() && old_children[j].is_valid());
            }
        }
        let tree = DataTree { name, size, children: trees };
        Ok(tree)
    }
}

/// The path that joining `names` one after another onto an empty path
/// gives, by [`std::path::Path::join`].
pub open spec fn joined_names(names: Seq<Seq<char>>) -> Seq<char>
    decreases names.len(),
{
    if names.len() == 0 {
        seq![]
    } else {
        joined_path(joined_names(names.drop_last()), names.last())
    }
}

impl ConversionError<String> {
    /// The message of the error: the path of the node, its size and the
    /// total size of its children.
    pub open spec fn message(&self) -> Seq<char> {
        match self {
            ConversionError::ExcessiveChildren { path, size, children_sum, .. } => "ExcessiveChildren: "@
                + path_debug(joined_names(path@.map_values(|name: String| name@))) + ": "@ + decimal(
                *size as nat,
            ) + " is less than "@ + decimal(*children_sum as nat),
        }
    }

    /// The message of the error, as its display would write it.
    pub fn to_string(&self) -> (text: String)
        ensures
            text@ == self.message(),
    {
        match self {
            ConversionError::ExcessiveChildren { path, size, children_sum, .. } => {
                let ghost names = path@.map_values(|name: String| name@);
                let mut joined = String::new();
                let len = path.len();
                let mut i: usize = 0;
                while i < len
                    invariant
                        i <= len,
                        len == path@.len(),
                        names == path@.map_values(|name: String| name@),
                        joined@ == joined_names(names.take(i as int)),
                    decreases len - i,
                {
                    proof {
                        assert(names.take(i + 1).drop_last() =~= names.take(i as int));
                    }
                    joined = join(joined.as_str(), path[i].as_str());
                    i = i + 1;
                }
                proof {
                    assert(names.take(len as int) =~= names);
                }
                let mut text = String::new();
                push_text(&mut text, "ExcessiveChildren: ");
                let quoted = debug_path(joined.as_str());
                push_text(&mut text, quoted.as_str());
                push_text(&mut text, ": ");
                push_decimal(&mut text, *size);
                push_text(&mut text, " is less than ");
                push_decimal(&mut text, *children_sum);
                text
            },
        }
    }
}

} // verus!
