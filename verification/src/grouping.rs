//! The grouping of files by content fingerprint.
use crate::text::{lemma_texts_push, string_list_of, texts};
use vstd::hash_map::StringHashMap;
use vstd::prelude::*;

verus! {

/// The files found to share one fingerprint.
#[derive(Debug, Clone, PartialEq, Eq)]
pub struct DuplicateGroup {
    /// The fingerprint.
    pub hash: String,
    /// The paths of the files, in the order in which they were added.
    pub files: Vec<String>,
}

/// A `DuplicateGroup` as plain values.
pub struct GroupView {
    pub hash: Seq<char>,
    pub files: Seq<Seq<char>>,
}

impl View for DuplicateGroup {
    type V = GroupView;

    open spec fn view(&self) -> GroupView {
        GroupView { hash: self.hash@, files: texts(self.files@) }
    }
}

/// The views of a list of groups.
pub open spec fn group_views(groups: Seq<DuplicateGroup>) -> Seq<GroupView> {
    Seq::new(groups.len(), |i: int| groups[i]@)
}

/// The outcome of hashing one file: its fingerprint, or nothing where the
/// file could not be read and is skipped.
#[derive(Debug, Clone, PartialEq, Eq)]
pub struct HashedFile {
    pub path: String,
    pub fingerprint: Option<String>,
}

/// A `HashedFile` as plain values.
pub struct HashedFileView {
    pub path: Seq<char>,
    pub fingerprint: Option<Seq<char>>,
}

impl View for HashedFile {
    type V = HashedFileView;

    open spec fn view(&self) -> HashedFileView {
        HashedFileView {
            path: self.path@,
            fingerprint: match self.fingerprint {
                Some(h) => Some(h@),
                None => None,
            },
        }
    }
}

/// The views of a list of hashing outcomes.
pub open spec fn hashed_views(files: Seq<HashedFile>) -> Seq<HashedFileView> {
    Seq::new(files.len(), |i: int| files[i]@)
}

/// Whether some file of `files` has the fingerprint `hash`.
pub open spec fn has_fingerprint(files: Seq<HashedFileView>, hash: Seq<char>) -> bool {
    exists|i: int| 0 <= i < files.len() && (#[trigger] files[i]).fingerprint == Some(hash)
}

/// The paths of the files of `files` whose fingerprint is `hash`, in the
/// order of `files`.
pub open spec fn paths_with(files: Seq<HashedFileView>, hash: Seq<char>) -> Seq<Seq<char>>
    decreases files.len(),
{
    if files.len() == 0 {
        Seq::empty()
    } else if files.last().fingerprint == Some(hash) {
        paths_with(files.drop_last(), hash).push(files.last().path)
    } else {
        paths_with(files.drop_last(), hash)
    }
}

/// The fingerprints that occur in `files`, each once, in the order in which
/// they first occur.
pub open spec fn first_seen(files: Seq<HashedFileView>) -> Seq<Seq<char>>
    decreases files.len(),
{
    if files.len() == 0 {
        Seq::empty()
    } else {
        let before = first_seen(files.drop_last());
        match files.last().fingerprint {
            Some(hash) => if has_fingerprint(files.drop_last(), hash) {
                before
            } else {
                before.push(hash)
            },
            None => before,
        }
    }
}

/// The grouping of `files`: every fingerprint that occurs, with the paths of
/// the files that have it. Skipped files are in no group.
pub open spec fn grouping_of(files: Seq<HashedFileView>) -> Map<Seq<char>, Seq<Seq<char>>> {
    Map::new(
        |hash: Seq<char>| has_fingerprint(files, hash),
        |hash: Seq<char>| paths_with(files, hash),
    )
}

/// The groups of `files` in order: one for every fingerprint that occurs, in
/// the order of first occurrence, with the paths of the files that have it.
pub open spec fn groups_of(files: Seq<HashedFileView>) -> Seq<GroupView> {
    Seq::new(
        first_seen(files).len(),
        |i: int|
            GroupView {
                hash: first_seen(files)[i],
                files: paths_with(files, first_seen(files)[i]),
            },
    )
}

/// The number of paths that `groups` list, all groups together.
pub open spec fn listed_count(groups: Seq<GroupView>) -> nat
    decreases groups.len(),
{
    if groups.len() == 0 {
        0
    } else {
        listed_count(groups.drop_last()) + groups.last().files.len()
    }
}

/// The number of files of `files` that have a fingerprint.
pub open spec fn hashed_count(files: Seq<HashedFileView>) -> nat
    decreases files.len(),
{
    if files.len() == 0 {
        0
    } else if files.last().fingerprint is Some {
        hashed_count(files.drop_last()) + 1
    } else {
        hashed_count(files.drop_last())
    }
}

/// Whether no two files of `files` have the same path.
pub open spec fn hashed_paths_are_distinct(files: Seq<HashedFileView>) -> bool {
    forall|i: int, j: int|
        0 <= i < files.len() && 0 <= j < files.len() && i != j ==> (#[trigger] files[i]).path != (
        #[trigger] files[j]).path
}

/// Whether every path is listed once only: no group lists a path twice, and
/// two groups that list the same path are the same group.
pub open spec fn groups_share_no_path(groups: Seq<GroupView>) -> bool {
    &&& forall|i: int| 0 <= i < groups.len() ==> (#[trigger] groups[i]).files.no_duplicates()
    &&& forall|i: int, j: int, path: Seq<char>|
        #![trigger groups[i].files.contains(path), groups[j].files.contains(path)]
        0 <= i < groups.len() && 0 <= j < groups.len() && groups[i].files.contains(path)
            && groups[j].files.contains(path) ==> groups[i] == groups[j]
}

/// The paths listed under `hash`, none where `hash` is not in the grouping.
pub open spec fn paths_under(grouping: Map<Seq<char>, Seq<Seq<char>>>, hash: Seq<char>) -> Seq<
    Seq<char>,
> {
    if grouping.contains_key(hash) {
        grouping[hash]
    } else {
        Seq::empty()
    }
}

/// A mapping from fingerprint to the paths of the files with that
/// fingerprint. Each fingerprint has one group, and no group is empty.
pub struct DuplicateGrouping {
    groups: Vec<DuplicateGroup>,
    index: StringHashMap<usize>,
}

impl View for DuplicateGrouping {
    type V = Map<Seq<char>, Seq<Seq<char>>>;

    closed spec fn view(&self) -> Map<Seq<char>, Seq<Seq<char>>> {
        Map::new(
            |hash: Seq<char>| self.index@.contains_key(hash),
            |hash: Seq<char>| texts(self.groups@[self.index@[hash] as int].files@),
        )
    }
}

impl DuplicateGrouping {
    #[verifier::type_invariant]
    closed spec fn well_formed(&self) -> bool {
        &&& forall|i: int|
            0 <= i < self.groups@.len() ==> {
                &&& self.index@.contains_key((#[trigger] self.groups@[i]).hash@)
                &&& self.index@[self.groups@[i].hash@] == i
                &&& self.groups@[i].files@.len() > 0
            }
        &&& forall|hash: Seq<char>| #[trigger]
            self.index@.contains_key(hash) ==> {
                &&& self.index@[hash] < self.groups@.len()
                &&& self.groups@[self.index@[hash] as int].hash@ == hash
            }
    }

    /// The fingerprints of the groups, in the order in which the groups were
    /// opened.
    pub closed spec fn hashes(&self) -> Seq<Seq<char>> {
        Seq::new(self.groups@.len(), |i: int| self.groups@[i].hash@)
    }

    /// The groups in order, each with its paths.
    pub open spec fn listing(&self) -> Seq<GroupView> {
        Seq::new(
            self.hashes().len(),
            |i: int| GroupView { hash: self.hashes()[i], files: self@[self.hashes()[i]] },
        )
    }

    /// A grouping without files.
    pub fn new() -> (grouping: Self)
        ensures
            grouping@ == Map::<Seq<char>, Seq<Seq<char>>>::empty(),
            grouping.hashes() == Seq::<Seq<char>>::empty(),
    {
        let grouping = DuplicateGrouping { groups: Vec::new(), index: StringHashMap::new() };
        grouping
    }

    /// Lists `path` under the fingerprint `hash`, after the paths already
    /// there. A fingerprint that is new gets a group of its own, after the
    /// groups already there.
    pub fn add(&mut self, hash: String, path: String)
        ensures
            final(self)@ == old(self)@.insert(hash@, paths_under(old(self)@, hash@).push(path@)),
            final(self).hashes() == if old(self)@.contains_key(hash@) {
                old(self).hashes()
            } else {
                old(self).hashes().push(hash@)
            },
    {
        let mut taken = DuplicateGrouping::new();
        core::mem::swap(self, &mut taken);
        *self = taken.with_file(hash, path);
    }

    /// Whether `hashes` names every group of `grouping`, each once, and no
    /// group is empty.
    pub open spec fn lists(
        hashes: Seq<Seq<char>>,
        grouping: Map<Seq<char>, Seq<Seq<char>>>,
    ) -> bool {
        &&& hashes.no_duplicates()
        &&& forall|hash: Seq<char>| #[trigger]
            grouping.contains_key(hash) <==> hashes.contains(hash)
        &&& forall|hash: Seq<char>| #[trigger]
            grouping.contains_key(hash) ==> grouping[hash].len() > 0
    }

    /// The number of groups.
    pub fn len(&self) -> (count: usize)
        ensures
            count == self.hashes().len(),
    {
        self.groups.len()
    }

    /// Whether the grouping holds no file.
    pub fn is_empty(&self) -> (empty: bool)
        ensures
            empty == (self.hashes().len() == 0),
            empty == (self@ == Map::<Seq<char>, Seq<Seq<char>>>::empty()),
    {
        proof {
            use_type_invariant(self);
            if self.groups@.len() == 0 {
                assert(self@ =~= Map::<Seq<char>, Seq<Seq<char>>>::empty());
            } else {
                assert(self@.contains_key(self.groups@[0].hash@));
            }
        }
        self.groups.len() == 0
    }

    /// The paths listed under `hash`, if there are any.
    pub fn get(&self, hash: &str) -> (files: Option<&Vec<String>>)
        ensures
            match files {
                Some(paths) => self@.contains_key(hash@) && texts(paths@) == self@[hash@],
                None => !self@.contains_key(hash@),
            },
    {
        proof {
            use_type_invariant(self);
        }
        match self.index.get(hash) {
            Some(slot) => Some(&self.groups[*slot].files),
            None => None,
        }
    }

    /// The groups, in the order in which they were opened.
    pub fn groups(&self) -> (groups: &Vec<DuplicateGroup>)
        ensures
            group_views(groups@) == self.listing(),
            Self::lists(self.hashes(), self@),
    {
        proof {
            use_type_invariant(self);
            let hashes = self.hashes();
            assert forall|hash: Seq<char>| #[trigger]
                self@.contains_key(hash) implies hashes.contains(hash) by {
                assert(hashes[self.index@[hash] as int] == hash);
            }
        }
        &self.groups
    }

    /// The groups with two files or more, in order: the duplicates.
    pub fn duplicates(&self) -> (found: Vec<DuplicateGroup>)
        ensures
            group_views(found@) == duplicate_groups(self.listing()),
    {
        let groups = self.groups();
        let ghost listing = self.listing();
        let mut found: Vec<DuplicateGroup> = Vec::new();
        let mut i: usize = 0;
        while i < groups.len()
            invariant
                i <= groups.len(),
                listing == group_views(groups@),
                group_views(found@) == duplicate_groups(listing.take(i as int)),
            decreases groups.len() - i,
        {
            let group = &groups[i];
            proof {
                assert(listing.take(i + 1).drop_last() =~= listing.take(i as int));
            }
            if group.files.len() >= 2 {
                assert(group.files@.subrange(0, group.files@.len() as int) =~= group.files@);
                found.push(
                    DuplicateGroup {
                        hash: group.hash.clone(),
                        files: string_list_of(&group.files, 0, group.files.len()),
                    },
                );
            }
            i += 1;
        }
        assert(listing.take(i as int) =~= listing);
        found
    }

    fn with_file(self, hash: String, path: String) -> (grouping: Self)
        ensures
            grouping@ == self@.insert(hash@, paths_under(self@, hash@).push(path@)),
            grouping.hashes() == if self@.contains_key(hash@) {
                self.hashes()
            } else {
                self.hashes().push(hash@)
            },
    {
        proof {
            use_type_invariant(&self);
        }
        let ghost before = self;
        let ghost target = paths_under(before@, hash@).push(path@);
        let DuplicateGrouping { mut groups, mut index } = self;
        let ghost old_groups = groups@;
        match index.get(hash.as_str()) {
            Some(slot) => {
                let at = *slot;
                groups[at].files.push(path);
                proof {
                    lemma_texts_push(old_groups[at as int].files@, path);
                }
            },
            None => {
                let at = groups.len();
                index.insert(hash.clone(), at);
                let mut files: Vec<String> = Vec::new();
                files.push(path);
                proof {
                    lemma_texts_push(Seq::<String>::empty(), path);
                }
                groups.push(DuplicateGroup { hash, files });
            },
        }
        let grouping = DuplicateGrouping { groups, index };
        proof {
            assert forall|key: Seq<char>| #[trigger]
                grouping@.contains_key(key) implies grouping@[key] == before@.insert(
                hash@,
                target,
            )[key] by {}
        }
        grouping
    }
}

/// The groups of `groups` that hold two files or more, in the same order.
pub open spec fn duplicate_groups(groups: Seq<GroupView>) -> Seq<GroupView>
    decreases groups.len(),
{
    if groups.len() == 0 {
        Seq::empty()
    } else if groups.last().files.len() >= 2 {
        duplicate_groups(groups.drop_last()).push(groups.last())
    } else {
        duplicate_groups(groups.drop_last())
    }
}

/// A fingerprint that no file has lists no paths.
pub proof fn lemma_absent_fingerprint_has_no_paths(files: Seq<HashedFileView>, hash: Seq<char>)
    requires
        !has_fingerprint(files, hash),
    ensures
        paths_with(files, hash) == Seq::<Seq<char>>::empty(),
    decreases files.len(),
{
    if files.len() > 0 {
        lemma_absent_fingerprint_has_no_paths(files.drop_last(), hash);
    }
}

/// The fingerprints in order of first occurrence are the fingerprints that
/// occur, each once.
pub proof fn lemma_first_seen_lists_fingerprints(files: Seq<HashedFileView>)
    ensures
        first_seen(files).no_duplicates(),
        forall|hash: Seq<char>|
            #![trigger first_seen(files).contains(hash)]
            #![trigger has_fingerprint(files, hash)]
            first_seen(files).contains(hash) <==> has_fingerprint(files, hash),
    decreases files.len(),
{
    if files.len() > 0 {
        let before = files.drop_last();
        lemma_first_seen_lists_fingerprints(before);
        let earlier = first_seen(before);
        let all = first_seen(files);
        assert forall|hash: Seq<char>| all.contains(hash) <==> has_fingerprint(files, hash) by {
            if all.contains(hash) {
                let k = choose|k: int| 0 <= k < all.len() && all[k] == hash;
                if k < earlier.len() {
                    assert(earlier.contains(hash));
                    let i = choose|i: int|
                        0 <= i < before.len() && (#[trigger] before[i]).fingerprint == Some(hash);
                }
            }
            if has_fingerprint(files, hash) {
                let i = choose|i: int|
                    0 <= i < files.len() && (#[trigger] files[i]).fingerprint == Some(hash);
                if i < before.len() {
                    assert(before[i].fingerprint == Some(hash));
                    assert(earlier.contains(hash));
                    let k = choose|k: int| 0 <= k < earlier.len() && earlier[k] == hash;
                    assert(all[k] == hash);
                } else if !has_fingerprint(before, hash) {
                    assert(all[all.len() - 1] == hash);
                }
            }
        }
    }
}

/// How one more hashed file changes the grouping: a skipped file changes
/// nothing; any other is listed last under its fingerprint, whose group is
/// the last one if it is new.
pub proof fn lemma_grouping_of_push(files: Seq<HashedFileView>, file: HashedFileView)
    ensures
        grouping_of(files.push(file)) == match file.fingerprint {
            Some(hash) => grouping_of(files).insert(
                hash,
                paths_under(grouping_of(files), hash).push(file.path),
            ),
            None => grouping_of(files),
        },
        first_seen(files.push(file)) == match file.fingerprint {
            Some(hash) => if grouping_of(files).contains_key(hash) {
                first_seen(files)
            } else {
                first_seen(files).push(hash)
            },
            None => first_seen(files),
        },
{
    let all = files.push(file);
    assert(all.drop_last() =~= files);
    assert forall|key: Seq<char>| has_fingerprint(all, key) <==> (has_fingerprint(files, key)
        || file.fingerprint == Some(key)) by {
        if file.fingerprint == Some(key) {
            assert(all[all.len() - 1].fingerprint == Some(key));
        }
    }
    match file.fingerprint {
        Some(hash) => {
            if !has_fingerprint(files, hash) {
                lemma_absent_fingerprint_has_no_paths(files, hash);
            }
            assert(grouping_of(all) =~= grouping_of(files).insert(
                hash,
                paths_under(grouping_of(files), hash).push(file.path),
            ));
        },
        None => {},
    }
}

/// Groups hashed files by fingerprint. Every file with a fingerprint is
/// listed once, under its fingerprint, in the order of `files`; a skipped
/// file is listed nowhere. The groups stand in the order in which their
/// fingerprints first occur.
pub fn group_by_fingerprint(files: &Vec<HashedFile>) -> (grouping: DuplicateGrouping)
    ensures
        grouping@ == grouping_of(hashed_views(files@)),
        grouping.hashes() == first_seen(hashed_views(files@)),
        grouping.listing() == groups_of(hashed_views(files@)),
{
    let ghost views = hashed_views(files@);
    let mut grouping = DuplicateGrouping::new();
    let mut i: usize = 0;
    while i < files.len()
        invariant
            i <= files.len(),
            views == hashed_views(files@),
            grouping@ == grouping_of(views.take(i as int)),
            grouping.hashes() == first_seen(views.take(i as int)),
        decreases files.len() - i,
    {
        let file = &files[i];
        proof {
            lemma_grouping_of_push(views.take(i as int), views[i as int]);
            assert(views.take(i as int).push(views[i as int]) =~= views.take(i + 1));
        }
        if let Some(hash) = &file.fingerprint {
            grouping.add(hash.clone(), file.path.clone());
        }
        i += 1;
    }
    proof {
        assert(views.take(i as int) =~= views);
        lemma_first_seen_lists_fingerprints(views);
    }
    grouping
}

/// A file with a fingerprint is listed under that fingerprint.
pub proof fn lemma_hashed_file_is_listed(files: Seq<HashedFileView>, at: int)
    requires
        0 <= at < files.len(),
        files[at].fingerprint is Some,
    ensures
        grouping_of(files).contains_key(files[at].fingerprint->0),
        grouping_of(files)[files[at].fingerprint->0].contains(files[at].path),
    decreases files.len(),
{
    let hash = files[at].fingerprint->0;
    let before = files.drop_last();
    if at == files.len() - 1 {
        let listed = paths_with(files, hash);
        assert(listed[listed.len() - 1] == files[at].path);
    } else {
        lemma_hashed_file_is_listed(before, at);
        let earlier = paths_with(before, hash);
        let i = choose|i: int| 0 <= i < earlier.len() && earlier[i] == files[at].path;
        assert(paths_with(files, hash)[i] == files[at].path);
    }
}

/// Every path listed under a fingerprint is the path of a file with that
/// fingerprint.
pub proof fn lemma_listed_path_has_file(
    files: Seq<HashedFileView>,
    hash: Seq<char>,
    path: Seq<char>,
)
    requires
        paths_with(files, hash).contains(path),
    ensures
        exists|at: int|
            0 <= at < files.len() && (#[trigger] files[at]).fingerprint == Some(hash)
                && files[at].path == path,
    decreases files.len(),
{
    if files.len() > 0 {
        let before = files.drop_last();
        let last = files.len() - 1;
        if !(files[last].fingerprint == Some(hash) && files[last].path == path) {
            lemma_listed_path_has_file(before, hash, path);
        }
    }
}

/// Where no two files have the same path, every path is listed once only:
/// once in its group, and in no other group.
pub proof fn lemma_distinct_paths_are_listed_once(files: Seq<HashedFileView>)
    requires
        hashed_paths_are_distinct(files),
    ensures
        groups_share_no_path(groups_of(files)),
{
    let groups = groups_of(files);
    assert forall|i: int| 0 <= i < groups.len() implies (
    #[trigger] groups[i]).files.no_duplicates() by {
        lemma_group_lists_no_path_twice(files, groups[i].hash);
    }
    assert forall|i: int, j: int, path: Seq<char>|
        #![trigger groups[i].files.contains(path), groups[j].files.contains(path)]
        0 <= i < groups.len() && 0 <= j < groups.len() && groups[i].files.contains(path)
            && groups[j].files.contains(path) implies groups[i] == groups[j] by {
        lemma_listed_path_has_file(files, groups[i].hash, path);
        lemma_listed_path_has_file(files, groups[j].hash, path);
        let a = choose|a: int|
            0 <= a < files.len() && (#[trigger] files[a]).fingerprint == Some(groups[i].hash)
                && files[a].path == path;
    }
}

/// Where no two files have the same path, no group lists a path twice.
pub proof fn lemma_group_lists_no_path_twice(files: Seq<HashedFileView>, hash: Seq<char>)
    requires
        hashed_paths_are_distinct(files),
    ensures
        paths_with(files, hash).no_duplicates(),
    decreases files.len(),
{
    if files.len() > 0 {
        let before = files.drop_last();
        let last = files.last();
        lemma_group_lists_no_path_twice(before, hash);
        if last.fingerprint == Some(hash) {
            let earlier = paths_with(before, hash);
            if earlier.contains(last.path) {
                lemma_listed_path_has_file(before, hash, last.path);
            }
        }
    }
}

/// Replacing one group changes the number of listed paths by the difference
/// in size of the two groups.
proof fn lemma_listed_count_update(groups: Seq<GroupView>, at: int, group: GroupView)
    requires
        0 <= at < groups.len(),
    ensures
        listed_count(groups.update(at, group)) + groups[at].files.len() == listed_count(groups)
            + group.files.len(),
    decreases groups.len(),
{
    let changed = groups.update(at, group);
    if at == groups.len() - 1 {
        assert(changed.drop_last() =~= groups.drop_last());
    } else {
        lemma_listed_count_update(groups.drop_last(), at, group);
        assert(changed.drop_last() =~= groups.drop_last().update(at, group));
    }
}

/// Every file with a fingerprint is listed exactly once: the groups together
/// list as many paths as there are files with a fingerprint.
pub proof fn lemma_every_hashed_file_is_listed_once(files: Seq<HashedFileView>)
    ensures
        listed_count(groups_of(files)) == hashed_count(files),
    decreases files.len(),
{
    if files.len() > 0 {
        let before = files.drop_last();
        let last = files.last();
        let earlier = groups_of(before);
        let all = groups_of(files);
        lemma_every_hashed_file_is_listed_once(before);
        lemma_first_seen_lists_fingerprints(before);
        match last.fingerprint {
            None => {
                assert(all =~= earlier);
            },
            Some(hash) => {
                if has_fingerprint(before, hash) {
                    let at = choose|at: int|
                        0 <= at < first_seen(before).len() && first_seen(before)[at] == hash;
                    let grown = GroupView { hash, files: earlier[at].files.push(last.path) };
                    assert(all =~= earlier.update(at, grown));
                    lemma_listed_count_update(earlier, at, grown);
                } else {
                    lemma_absent_fingerprint_has_no_paths(before, hash);
                    assert(all.drop_last() =~= earlier);
                }
            },
        }
    }
}

/// Every duplicate group has two files or more.
pub proof fn lemma_duplicates_have_two(groups: Seq<GroupView>)
    ensures
        forall|k: int|
            0 <= k < duplicate_groups(groups).len() ==> (#[trigger] duplicate_groups(
                groups,
            )[k]).files.len() >= 2,
    decreases groups.len(),
{
    if groups.len() > 0 {
        lemma_duplicates_have_two(groups.drop_last());
        assert(duplicate_groups(groups).drop_last() == duplicate_groups(groups.drop_last())
            || duplicate_groups(groups) == duplicate_groups(groups.drop_last()));
    }
}

/// Every duplicate group is one of the groups.
pub proof fn lemma_duplicates_are_groups(groups: Seq<GroupView>)
    ensures
        forall|k: int|
            0 <= k < duplicate_groups(groups).len() ==> groups.contains(
                #[trigger] duplicate_groups(groups)[k],
            ),
    decreases groups.len(),
{
    if groups.len() > 0 {
        let before = groups.drop_last();
        lemma_duplicates_are_groups(before);
        assert forall|k: int| 0 <= k < duplicate_groups(groups).len() implies groups.contains(
            #[trigger] duplicate_groups(groups)[k],
        ) by {
            if k < duplicate_groups(before).len() {
                let i = choose|i: int|
                    0 <= i < before.len() && before[i] == duplicate_groups(before)[k];
                assert(groups[i] == before[i]);
            } else {
                assert(groups[groups.len() - 1] == duplicate_groups(groups)[k]);
            }
        }
    }
}

/// Every group with two files or more is a duplicate group.
pub proof fn lemma_groups_of_two_are_duplicates(groups: Seq<GroupView>, at: int)
    requires
        0 <= at < groups.len(),
        groups[at].files.len() >= 2,
    ensures
        duplicate_groups(groups).contains(groups[at]),
    decreases groups.len(),
{
    let found = duplicate_groups(groups);
    if at == groups.len() - 1 {
        assert(found[found.len() - 1] == groups[at]);
    } else {
        let before = groups.drop_last();
        lemma_groups_of_two_are_duplicates(before, at);
        let earlier = duplicate_groups(before);
        let k = choose|k: int| 0 <= k < earlier.len() && earlier[k] == before[at];
        assert(found[k] == groups[at]);
    }
}

} // verus!
