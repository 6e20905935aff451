use super::DataTree;
use crate::parallel::par_map;
use crate::path_ops::{path_strip_prefix, strip_prefix};
use vstd::prelude::*;

verus! {

/// The paths of `links` that lie under `prefix`, each relative to it, in
/// order.
pub open spec fn links_under(links: Seq<Seq<char>>, prefix: Seq<char>) -> Seq<Seq<char>>
    decreases links.len(),
{
    if links.len() == 0 {
        seq![]
    } else {
        let rest = links_under(links.drop_last(), prefix);
        match path_strip_prefix(links.last(), prefix) {
            Some(suffix) => rest.push(suffix),
            None => rest,
        }
    }
}

/// The groups of hardlinks that concern the tree named `prefix`: those of
/// more than one link with more than one link under it, each with the size
/// shared by its links and the paths of those links relative to `prefix`.
pub open spec fn sub_hardlink_info(info: Seq<(u64, Seq<Seq<char>>)>, prefix: Seq<char>) -> Seq<
    (u64, Seq<Seq<char>>),
>
    decreases info.len(),
{
    if info.len() == 0 {
        seq![]
    } else {
        let rest = sub_hardlink_info(info.drop_last(), prefix);
        let group = info.last();
        let under = links_under(group.1, prefix);
        if group.1.len() > 1 && under.len() > 1 {
            rest.push((group.0, under))
        } else {
            rest
        }
    }
}

/// The size counted more than once in a tree that holds the given groups
/// of links: each group's size once for each link but one.
pub open spec fn shared_reduction(groups: Seq<(u64, Seq<Seq<char>>)>) -> int
    decreases groups.len(),
{
    if groups.len() == 0 {
        0
    } else {
        shared_reduction(groups.drop_last()) + groups.last().0 * (groups.last().1.len() - 1)
    }
}

/// The size and link paths of each group, as plain values.
pub open spec fn info_view(info: Seq<(u64, Vec<String>)>) -> Seq<(u64, Seq<Seq<char>>)> {
    info.map_values(
        |group: (u64, Vec<String>)| (group.0, group.1@.map_values(|link: String| link@)),
    )
}

/// A sum of products of sizes and counts of more than one that is at most
/// `u64::MAX` has every partial sum and product at most `u64::MAX` too.
proof fn lemma_shared_reduction_prefix(groups: Seq<(u64, Seq<Seq<char>>)>, k: int)
    requires
        0 <= k <= groups.len(),
        forall|j: int| 0 <= j < groups.len() ==> (#[trigger] groups[j]).1.len() > 1,
    ensures
        0 <= shared_reduction(groups.take(k)) <= shared_reduction(groups),
        k < groups.len() ==> shared_reduction(groups.take(k + 1)) == shared_reduction(groups.take(k))
            + groups[k].0 * (groups[k].1.len() - 1),
        k < groups.len() ==> 0 <= groups[k].0 * (groups[k].1.len() - 1),
    decreases groups.len(),
{
    if k == groups.len() {
        assert(groups.take(k) =~= groups);
        lemma_shared_reduction_nonneg(groups);
    } else {
        let rest = groups.drop_last();
        assert forall|j: int| 0 <= j < rest.len() implies (#[trigger] rest[j]).1.len() > 1 by {
            assert(rest[j] == groups[j]);
        }
        lemma_shared_reduction_prefix(rest, k);
        assert(rest.take(k) =~= groups.take(k));
        assert(groups.take(k + 1).drop_last() =~= groups.take(k));
        let last = groups.last();
        assert(last.0 * (last.1.len() - 1) >= 0) by (nonlinear_arith)
            requires
                last.1.len() > 1,
        ;
        let g = groups[k];
        assert(g.0 * (g.1.len() - 1) >= 0) by (nonlinear_arith)
            requires
                g.1.len() > 1,
        ;
        if k + 1 < groups.len() {
            lemma_shared_reduction_prefix(rest, k + 1);
            assert(rest.take(k + 1) =~= groups.take(k + 1));
        } else {
            assert(groups.take(k + 1) =~= groups);
        }
    }
}

/// The reduction of groups of more than one link is never negative.
proof fn lemma_shared_reduction_nonneg(groups: Seq<(u64, Seq<Seq<char>>)>)
    requires
        forall|j: int| 0 <= j < groups.len() ==> (#[trigger] groups[j]).1.len() > 1,
    ensures
        shared_reduction(groups) >= 0,
    decreases groups.len(),
{
    if groups.len() > 0 {
        let rest = groups.drop_last();
        assert forall|j: int| 0 <= j < rest.len() implies (#[trigger] rest[j]).1.len() > 1 by {
            assert(rest[j] == groups[j]);
        }
        lemma_shared_reduction_nonneg(rest);
        let last = groups.last();
        assert(last.0 * (last.1.len() - 1) >= 0) by (nonlinear_arith)
            requires
                last.1.len() > 1,
        ;
    }
}

/// Every group that concerns a tree has more than one link.
proof fn lemma_sub_info_groups(info: Seq<(u64, Seq<Seq<char>>)>, prefix: Seq<char>)
    ensures
        forall|j: int|
            0 <= j < sub_hardlink_info(info, prefix).len() ==> (#[trigger] sub_hardlink_info(
                info,
                prefix,
            )[j]).1.len() > 1,
    decreases info.len(),
{
    if info.len() > 0 {
        let rest = sub_hardlink_info(info.drop_last(), prefix);
        lemma_sub_info_groups(info.drop_last(), prefix);
        let all = sub_hardlink_info(info, prefix);
        assert forall|j: int| 0 <= j < all.len() implies (#[trigger] all[j]).1.len() > 1 by {
            if j < rest.len() {
                assert(all[j] == rest[j]);
            }
        }
    }
}

/// The groups of `hardlink_info` that concern the tree named `name`, with the
/// paths of their links relative to it.
fn hardlink_groups_under(name: &String, hardlink_info: &[(u64, Vec<String>)]) -> (sub_info: Vec<
    (u64, Vec<String>),
>)
    ensures
        info_view(sub_info@) == sub_hardlink_info(info_view(hardlink_info@), name@),
{
    let ghost info = info_view(hardlink_info@);
    let ghost prefix = name@;
    let mut sub_info: Vec<(u64, Vec<String>)> = Vec::new();
    let len = hardlink_info.len();
    for i in 0..len
        invariant
            len == hardlink_info@.len(),
            info == info_view(hardlink_info@),
            prefix == name@,
            info_view(sub_info@) == sub_hardlink_info(info.take(i as int), prefix),
    {
        let (size, link_paths) = &hardlink_info[i];
        let ghost links = info[i as int].1;
        assert(links == link_paths@.map_values(|link: String| link@));
        proof {
            assert(info.take(i + 1).drop_last() =~= info.take(i as int));
        }
        if link_paths.len() > 1 {
            let mut suffixes: Vec<String> = Vec::new();
            let count = link_paths.len();
            for j in 0..count
                invariant
                    count == link_paths@.len(),
                    links == link_paths@.map_values(|link: String| link@),
                    prefix == name@,
                    suffixes@.map_values(|link: String| link@) == links_under(
                        links.take(j as int),
                        prefix,
                    ),
            {
                let ghost before = suffixes@;
                proof {
                    assert(links.take(j + 1).drop_last() =~= links.take(j as int));
                }
                if let Some(suffix) = strip_prefix(link_paths[j].as_str(), name.as_str()) {
                    suffixes.push(suffix);
                    proof {
                        assert(suffixes@.map_values(|link: String| link@) =~= before.map_values(
                            |link: String| link@,
                        ).push(suffix@));
                    }
                }
            }
            proof {
                assert(links.take(count as int) =~= links);
            }
            if suffixes.len() > 1 {
                let ghost before = sub_info@;
                sub_info.push((*size, suffixes));
                proof {
                    assert(info_view(sub_info@) =~= info_view(before).push(
                        (*size, links_under(links, prefix)),
                    ));
                }
            }
        }
    }
    proof {
        assert(info.take(len as int) =~= info);
    }
    sub_info
}

impl DataTree<String> {
    /// Deduplicating the groups of `info` leaves no size below zero: at
    /// every node, the size counted more than once is at most the size.
    pub closed spec fn deduplication_fits(&self, info: Seq<(u64, Seq<Seq<char>>)>) -> bool
        decreases self,
    {
        info.len() == 0 || {
            let sub = sub_hardlink_info(info, self.name@);
            &&& shared_reduction(sub) <= self.size
            &&& forall|i: int|
                0 <= i < self.children@.len() ==> (#[trigger] self.children@[i]).deduplication_fits(
                    sub,
                )
        }
    }

    /// What `deduplication_fits` says, one level at a time, over the node's name, size and children.
    pub proof fn lemma_deduplication_fits_unfold(&self, info: Seq<(u64, Seq<Seq<char>>)>)
        ensures
            self.deduplication_fits(info) <==> ({
                info.len() == 0 || {
                    let sub = sub_hardlink_info(info, self.spec_name()@);
                    &&& shared_reduction(sub) <= self.spec_size()
                    &&& forall|i: int|
                        0 <= i < self.spec_children().len() ==> (#[trigger] self.spec_children()[i]).deduplication_fits(
                            sub,
                        )
                }
            }),
    {
        assert(self.spec_children() == self.children@);
    }

    /// This tree is `old` with the size counted more than once through the
    /// hardlinks of `info` taken away: at each node, the groups that concern
    /// it are found, relative to its name, and their reduction is subtracted
    /// from its size; its children are deduplicated by those groups in turn.
    /// With no groups, nothing changes.
    pub closed spec fn deduplicated_from(&self, old: DataTree<String>, info: Seq<(u64, Seq<Seq<char>>)>) -> bool
        decreases old,
    {
        if info.len() == 0 {
            *self == old
        } else {
            let sub = sub_hardlink_info(info, old.name@);
            &&& self.name == old.name
            &&& self.size == old.size - shared_reduction(sub)
            &&& self.children@.len() == old.children@.len()
            &&& forall|i: int|
                0 <= i < old.children@.len() ==> (#[trigger] self.children@[i]).deduplicated_from(
                    old.children@[i],
                    sub,
                )
        }
    }

    /// What `deduplicated_from` says, one level at a time, over the node's name, size and children.
    pub proof fn lemma_deduplicated_from_unfold(&self, old: DataTree<String>, info: Seq<(u64, Seq<Seq<char>>)>)
        ensures
            self.deduplicated_from(old, info) <==> ({
                if info.len() == 0 {
                    *self == old
                } else {
                    let sub = sub_hardlink_info(info, old.spec_name()@);
                    &&& self.spec_name() == old.spec_name()
                    &&& self.spec_size() == old.spec_size() - shared_reduction(sub)
                    &&& self.spec_children().len() == old.spec_children().len()
                    &&& forall|i: int|
                        0 <= i < old.spec_children().len() ==> (#[trigger] self.spec_children()[i]).deduplicated_from(
                            old.spec_children()[i],
                            sub,
                        )
                }
            }),
    {
    }

    /// Whether deduplicating the groups of `hardlink_info` leaves every size
    /// at zero or above, so that `par_deduplicate_hardlinks` may run.
    pub fn check_deduplication_fits(&self, hardlink_info: &[(u64, Vec<String>)]) -> (fits: bool)
        ensures
            fits == self.deduplication_fits(info_view(hardlink_info@)),
        decreases self,
    {
        if hardlink_info.is_empty() {
            return true;
        }
        let ghost info = info_view(hardlink_info@);
        let sub_info = hardlink_groups_under(&self.name, hardlink_info);
        let ghost sub = info_view(sub_info@);
        proof {
            lemma_sub_info_groups(info, self.name@);
            assert(info.len() == hardlink_info@.len());
        }
        let groups = sub_info.len();
        let mut total: u64 = 0;
        for k in 0..groups
            invariant
                groups == sub_info@.len(),
                sub == info_view(sub_info@),
                forall|j: int| 0 <= j < sub.len() ==> (#[trigger] sub[j]).1.len() > 1,
                total == shared_reduction(sub.take(k as int)),
                info == info_view(hardlink_info@),
                info.len() > 0,
                sub == sub_hardlink_info(info, self.name@),
        {
            proof {
                lemma_shared_reduction_prefix(sub, k as int);
                lemma_shared_reduction_prefix(sub, k + 1);
            }
            let (size, suffixes) = &sub_info[k];
            let factor = (suffixes.len() - 1) as u64;
            proof {
                assert(sub[k as int] == (sub_info@[k as int].0, sub_info@[k as int].1@.map_values(
                    |link: String| link@,
                )));
                assert(sub[k as int].1.len() == suffixes.len());
            }
            match size.checked_mul(factor) {
                Some(reduction) => match total.checked_add(reduction) {
                    Some(next) => {
                        total = next;
                    },
                    None => {
                        return false;
                    },
                },
                None => {
                    proof {
                        assert(shared_reduction(sub.take(k + 1)) >= *size * factor);
                    }
                    return false;
                },
            }
        }
        proof {
            assert(sub.take(groups as int) =~= sub);
        }
        if total > self.size {
            return false;
        }
        let count = self.children.len();
        for i in 0..count
            invariant
                count == self.children@.len(),
                sub == info_view(sub_info@),
                info == info_view(hardlink_info@),
                info.len() > 0,
                sub == sub_hardlink_info(info, self.name@),
                shared_reduction(sub) <= self.size,
                forall|j: int|
                    0 <= j < i ==> (#[trigger] self.children@[j]).deduplication_fits(sub),
        {
            proof {
                self.lemma_child_decreases(i as int);
            }
            if !self.children[i].check_deduplication_fits(sub_info.as_slice()) {
                return false;
            }
        }
        true
    }

    /// Reduce the size of the directories that have hardlinks.
    ///
    /// `hardlink_info` holds, for each group of links to one inode, the size
    /// of the inode and the paths of the links.
    pub fn par_deduplicate_hardlinks(&mut self, hardlink_info: &[(u64, Vec<String>)])
        requires
            old(self).deduplication_fits(info_view(hardlink_info@)),
        ensures
            final(self).deduplicated_from(*old(self), info_view(hardlink_info@)),
        decreases *old(self),
    {
        if hardlink_info.is_empty() {
            return;
        }
        let whole: Ghost<DataTree<String>> = Ghost(*self);
        let ghost info = info_view(hardlink_info@);
        let ghost prefix = self.name@;
        let sub_info = hardlink_groups_under(&self.name, hardlink_info);
        let ghost sub = info_view(sub_info@);
        assert(sub == sub_hardlink_info(info, prefix));
        proof {
            lemma_sub_info_groups(info, prefix);
        }
        let ghost start_size = self.size;
        proof {
            assert(shared_reduction(sub) <= start_size);
        }
        let groups = sub_info.len();
        for k in 0..groups
            invariant
                groups == sub_info@.len(),
                sub == info_view(sub_info@),
                sub == sub_hardlink_info(info, prefix),
                forall|j: int| 0 <= j < sub.len() ==> (#[trigger] sub[j]).1.len() > 1,
                shared_reduction(sub) <= start_size,
                start_size == old(self).size,
                self.size == start_size - shared_reduction(sub.take(k as int)),
                self.name == old(self).name,
                self.children@ == old(self).children@,
        {
            proof {
                lemma_shared_reduction_prefix(sub, k as int);
                lemma_shared_reduction_prefix(sub, k + 1);
            }
            let (size, suffixes) = &sub_info[k];
            let number_of_links = suffixes.len();
            let factor = (number_of_links - 1) as u64;
            proof {
                assert(sub[k as int] == (sub_info@[k as int].0, sub_info@[k as int].1@.map_values(
                    |link: String| link@,
                )));
                assert(sub[k as int].1.len() == number_of_links);
                assert(sub[k as int].0 == *size);
                assert(*size * factor == sub[k as int].0 * (sub[k as int].1.len() - 1));
            }
            let reduction = *size * factor;
            self.size = self.size - reduction;
        }
        proof {
            assert(sub.take(groups as int) =~= sub);
        }
        let mut children: Vec<DataTree<String>> = Vec::new();
        std::mem::swap(&mut children, &mut self.children);
        let ghost old_children = children@;
        proof {
            assert forall|j: int| 0 <= j < old_children.len() implies {
                &&& decreases_to!(whole@ => old_children[j])
                &&& (#[trigger] old_children[j]).deduplication_fits(sub)
            } by {
                whole@.lemma_child_decreases(j);
            }
        }
        let sub_info_ref = &sub_info;
        let deduplicate_child = move |child: DataTree<String>| -> (deduplicated: DataTree<String>)
            requires
                decreases_to!(whole@ => child),
                child.deduplication_fits(info_view(sub_info_ref@)),
            ensures
                deduplicated.deduplicated_from(child, info_view(sub_info_ref@)),
            {
                let mut child = child;
                child.par_deduplicate_hardlinks(sub_info_ref.as_slice());
                child
            };
        let deduplicated = par_map(children, deduplicate_child);
        self.children = deduplicated;
    }
}

} // verus!
