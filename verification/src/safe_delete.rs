//! Safe deletion: of every group of duplicates one copy stays.
use crate::grouping::{
    duplicate_groups, group_views, groups_share_no_path, lemma_duplicates_are_groups,
    lemma_duplicates_have_two, DuplicateGrouping, GroupView,
};
use crate::text::{string_list_of, texts};
use vstd::prelude::*;

verus! {

/// What is to happen to one group of duplicates.
#[derive(Debug, Clone, PartialEq, Eq)]
pub struct GroupDeletion {
    /// The fingerprint that the files share.
    pub hash: String,
    /// The copy that stays: the first file of the group.
    pub keep: String,
    /// The copies that go: all the others.
    pub delete: Vec<String>,
}

/// A `GroupDeletion` as plain values.
pub struct GroupDeletionView {
    pub hash: Seq<char>,
    pub keep: Seq<char>,
    pub delete: Seq<Seq<char>>,
}

impl View for GroupDeletion {
    type V = GroupDeletionView;

    open spec fn view(&self) -> GroupDeletionView {
        GroupDeletionView { hash: self.hash@, keep: self.keep@, delete: texts(self.delete@) }
    }
}

/// What is to happen to the duplicates of a grouping. In a dry run the plan
/// is only shown: nothing is removed.
#[derive(Debug, Clone, PartialEq, Eq)]
pub struct DeletionPlan {
    pub dry_run: bool,
    pub groups: Vec<GroupDeletion>,
}

/// A `DeletionPlan` as plain values.
pub struct DeletionPlanView {
    pub dry_run: bool,
    pub groups: Seq<GroupDeletionView>,
}

impl View for DeletionPlan {
    type V = DeletionPlanView;

    open spec fn view(&self) -> DeletionPlanView {
        DeletionPlanView {
            dry_run: self.dry_run,
            groups: Seq::new(self.groups@.len(), |i: int| self.groups@[i]@),
        }
    }
}

/// The deletion of one group: its first file stays, the rest goes.
pub open spec fn deletion_of(group: GroupView) -> GroupDeletionView {
    GroupDeletionView {
        hash: group.hash,
        keep: group.files.first(),
        delete: group.files.drop_first(),
    }
}

/// The deletions for `groups`: one for each group with two files or more, in
/// order.
pub open spec fn deletions_of(groups: Seq<GroupView>) -> Seq<GroupDeletionView> {
    let duplicates = duplicate_groups(groups);
    Seq::new(duplicates.len(), |i: int| deletion_of(duplicates[i]))
}

impl DeletionPlanView {
    /// Whether carrying out the plan removes the file at `path`.
    pub open spec fn removes(self, path: Seq<char>) -> bool {
        !self.dry_run && exists|g: int|
            0 <= g < self.groups.len() && (#[trigger] self.groups[g]).delete.contains(path)
    }

    /// The files that exist once the plan is carried out on the files in
    /// `existing`, every removal succeeding.
    pub open spec fn remaining(self, existing: Set<Seq<char>>) -> Set<Seq<char>> {
        Set::new(|path: Seq<char>| existing.contains(path) && !self.removes(path))
    }
}

impl DeletionPlan {
    /// Whether the files marked for deletion are to be removed, or only
    /// shown.
    pub fn removes_files(&self) -> (removes: bool)
        ensures
            removes == !self.dry_run,
    {
        !self.dry_run
    }
}

/// Plans the deletion of duplicate files from `duplicates`, keeping only one
/// copy per group: the first. Groups with a single file are left alone. With
/// `dry_run` the plan is marked as one to show, not to carry out.
pub fn delete_duplicates(duplicates: &DuplicateGrouping, dry_run: bool) -> (plan: DeletionPlan)
    ensures
        plan@.dry_run == dry_run,
        plan@.groups == deletions_of(duplicates.listing()),
{
    let found = duplicates.duplicates();
    let ghost wanted = deletions_of(duplicates.listing());
    let mut groups: Vec<GroupDeletion> = Vec::new();
    let mut i: usize = 0;
    proof {
        lemma_duplicates_have_two(duplicates.listing());
    }
    while i < found.len()
        invariant
            i <= found.len(),
            group_views(found@) == duplicate_groups(duplicates.listing()),
            wanted == deletions_of(duplicates.listing()),
            forall|k: int|
                0 <= k < found.len() ==> (#[trigger] group_views(found@)[k]).files.len() >= 2,
            groups@.len() == i,
            forall|k: int| 0 <= k < i ==> (#[trigger] groups@[k])@ == wanted[k],
        decreases found.len() - i,
    {
        let group = &found[i];
        assert(group_views(found@)[i as int] == group@);
        let keep = group.files[0].clone();
        let delete = string_list_of(&group.files, 1, group.files.len());
        proof {
            assert(texts(delete@) =~= group@.files.drop_first());
        }
        groups.push(GroupDeletion { hash: group.hash.clone(), keep, delete });
        i += 1;
    }
    DeletionPlan { dry_run, groups }
}

/// Deleting keeps one copy: of a group of N files, with N at least 2, the
/// first file stays and the other N - 1 are marked for deletion, so kept and
/// deleted files together are the group.
pub proof fn lemma_one_copy_is_kept(group: GroupView)
    requires
        group.files.len() >= 2,
    ensures
        deletion_of(group).delete.len() == group.files.len() - 1,
        seq![deletion_of(group).keep] + deletion_of(group).delete == group.files,
        group.files.no_duplicates() ==> !deletion_of(group).delete.contains(
            deletion_of(group).keep,
        ),
{
    let deletion = deletion_of(group);
    assert(seq![deletion.keep] + deletion.delete =~= group.files);
    if group.files.no_duplicates() && deletion.delete.contains(deletion.keep) {
        let gone = deletion.delete;
        let k = choose|k: int| 0 <= k < gone.len() && gone[k] == deletion.keep;
        assert(group.files[k + 1] == group.files[0]);
    }
}

/// Whether the copy that is kept of the duplicate group at `at` is marked
/// for deletion nowhere in the plan for `groups`.
pub open spec fn kept_copy_is_spared(groups: Seq<GroupView>, at: int) -> bool {
    forall|g: int|
        0 <= g < deletions_of(groups).len() ==> !(#[trigger] deletions_of(
            groups,
        )[g]).delete.contains(deletions_of(groups)[at].keep)
}

/// Deletion safety. Take a group of duplicates whose files all exist and
/// whose kept copy is marked for deletion nowhere. Once the plan is carried
/// out, exactly one file of the group exists: the first. A dry run leaves
/// every file where it is, whatever the plan marks.
pub proof fn lemma_deletion_safety(
    groups: Seq<GroupView>,
    dry_run: bool,
    existing: Set<Seq<char>>,
    at: int,
)
    requires
        0 <= at < duplicate_groups(groups).len(),
        forall|k: int|
            0 <= k < duplicate_groups(groups)[at].files.len() ==> existing.contains(
                #[trigger] duplicate_groups(groups)[at].files[k],
            ),
        !dry_run ==> kept_copy_is_spared(groups, at),
    ensures
        ({
            let plan = DeletionPlanView { dry_run, groups: deletions_of(groups) };
            let group = duplicate_groups(groups)[at];
            &&& group.files.len() >= 2
            &&& dry_run ==> plan.remaining(existing) == existing
            &&& !dry_run ==> forall|k: int|
                0 <= k < group.files.len() ==> (plan.remaining(existing).contains(
                    #[trigger] group.files[k],
                ) <==> k == 0)
        }),
{
    let plan = DeletionPlanView { dry_run, groups: deletions_of(groups) };
    let group = duplicate_groups(groups)[at];
    lemma_duplicates_have_two(groups);
    if dry_run {
        assert(plan.remaining(existing) =~= existing);
    } else {
        assert forall|k: int| 0 <= k < group.files.len() implies (plan.remaining(existing).contains(
            #[trigger] group.files[k],
        ) <==> k == 0) by {
            if k > 0 {
                assert(plan.groups[at].delete[k - 1] == group.files[k]);
            }
        }
    }
}

/// In a grouping that lists every path once only, the copy that is kept of
/// a group of duplicates is marked for deletion nowhere.
pub proof fn lemma_single_listing_spares_kept_copy(groups: Seq<GroupView>, at: int)
    requires
        0 <= at < duplicate_groups(groups).len(),
        groups_share_no_path(groups),
    ensures
        kept_copy_is_spared(groups, at),
{
    let duplicates = duplicate_groups(groups);
    let group = duplicates[at];
    let kept = group.files[0];
    lemma_duplicates_have_two(groups);
    lemma_duplicates_are_groups(groups);
    assert forall|g: int| 0 <= g < deletions_of(groups).len() implies !(#[trigger] deletions_of(
        groups,
    )[g]).delete.contains(deletions_of(groups)[at].keep) by {
        let gone = deletions_of(groups)[g].delete;
        if gone.contains(kept) {
            let l = choose|l: int| 0 <= l < gone.len() && gone[l] == kept;
            let other = duplicates[g];
            assert(other.files[l + 1] == kept);
            let i = choose|i: int| 0 <= i < groups.len() && groups[i] == other;
            let j = choose|j: int| 0 <= j < groups.len() && groups[j] == group;
            assert(groups[i].files.contains(kept));
            assert(groups[j].files.contains(kept));
            assert(other == group);
            assert(group.files[l + 1] == group.files[0]);
        }
    }
}

} // verus!
