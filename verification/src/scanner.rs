//! The scan: which files are hashed, and how their outcomes are grouped.
use crate::filter::{
    lemma_filter_monotonic, FileFacts, FileRecord, FilterCriteria, FilterOptions,
};
use crate::grouping::{
    first_seen, group_by_fingerprint, grouping_of, groups_of, hashed_paths_are_distinct,
    hashed_views, lemma_hashed_file_is_listed, lemma_listed_path_has_file, paths_with,
    DuplicateGrouping, HashedFile, HashedFileView,
};
use crate::hashing::{fingerprint_of, hash_file};
use vstd::prelude::*;

verus! {

/// The views of a list of file records.
pub open spec fn record_views(files: Seq<FileRecord>) -> Seq<FileFacts> {
    Seq::new(files.len(), |i: int| files[i]@)
}

/// The files of `files` that `criteria` accepts, in the same order.
pub open spec fn accepted_files(files: Seq<FileFacts>, criteria: FilterCriteria) -> Seq<FileFacts>
    decreases files.len(),
{
    if files.len() == 0 {
        Seq::empty()
    } else if criteria.accepts(files.last()) {
        accepted_files(files.drop_last(), criteria).push(files.last())
    } else {
        accepted_files(files.drop_last(), criteria)
    }
}

/// The files that pass the filter, in the order of `files`: the candidates
/// for hashing.
pub fn select_candidates(files: Vec<FileRecord>, filters: &FilterOptions) -> (candidates: Vec<
    FileRecord,
>)
    ensures
        record_views(candidates@) == accepted_files(record_views(files@), filters@),
{
    let ghost all = record_views(files@);
    let mut candidates: Vec<FileRecord> = Vec::new();
    for file in walk: files
        invariant
            walk.seq() == files@,
            all == record_views(files@),
            record_views(candidates@) == accepted_files(all.take(walk.index()), filters@),
    {
        let ghost at = walk.index();
        proof {
            assert(all.take(at + 1).drop_last() =~= all.take(at));
        }
        if filters.matches(&file) {
            candidates.push(file);
        }
    }
    assert(all.take(files@.len() as int) =~= all);
    candidates
}

/// A file as a scan meets it: what is known of it and, where the file could
/// be read, its bytes.
#[derive(Debug, Clone, PartialEq, Eq)]
pub struct SourceFile {
    pub record: FileRecord,
    pub content: Option<Vec<u8>>,
}

/// A `SourceFile` as plain values.
pub struct SourceView {
    pub facts: FileFacts,
    pub content: Option<Seq<u8>>,
}

impl View for SourceFile {
    type V = SourceView;

    open spec fn view(&self) -> SourceView {
        SourceView {
            facts: self.record@,
            content: match self.content {
                Some(bytes) => Some(bytes@),
                None => None,
            },
        }
    }
}

/// The views of a list of source files.
pub open spec fn source_views(files: Seq<SourceFile>) -> Seq<SourceView> {
    Seq::new(files.len(), |i: int| files[i]@)
}

/// What hashing makes of one file: the fingerprint of its bytes, or a skip
/// where it could not be read.
pub open spec fn outcome_of(file: SourceView) -> HashedFileView {
    HashedFileView {
        path: file.facts.path,
        fingerprint: match file.content {
            Some(bytes) => Some(fingerprint_of(bytes)),
            None => None,
        },
    }
}

/// The hashing outcomes of the files that `criteria` accepts, in the order
/// of `files`.
pub open spec fn scan_outcomes(files: Seq<SourceView>, criteria: FilterCriteria) -> Seq<
    HashedFileView,
>
    decreases files.len(),
{
    if files.len() == 0 {
        Seq::empty()
    } else if criteria.accepts(files.last().facts) {
        scan_outcomes(files.drop_last(), criteria).push(outcome_of(files.last()))
    } else {
        scan_outcomes(files.drop_last(), criteria)
    }
}

/// Whether no two files of `files` have the same path.
pub open spec fn paths_are_distinct(files: Seq<SourceView>) -> bool {
    forall|i: int, j: int|
        0 <= i < files.len() && 0 <= j < files.len() && i != j ==> (#[trigger] files[i]).facts.path
            != (#[trigger] files[j]).facts.path
}

/// Hashes the files that pass the filter, in the order of `files`. A file
/// that could not be read is reported as skipped.
pub fn hash_candidates(files: &Vec<SourceFile>, filters: &FilterOptions) -> (hashed: Vec<
    HashedFile,
>)
    ensures
        hashed_views(hashed@) == scan_outcomes(source_views(files@), filters@),
{
    let ghost all = source_views(files@);
    let mut hashed: Vec<HashedFile> = Vec::new();
    let mut i: usize = 0;
    while i < files.len()
        invariant
            i <= files.len(),
            all == source_views(files@),
            hashed_views(hashed@) == scan_outcomes(all.take(i as int), filters@),
        decreases files.len() - i,
    {
        let file = &files[i];
        proof {
            assert(all.take(i + 1).drop_last() =~= all.take(i as int));
        }
        if filters.matches(&file.record) {
            let fingerprint = match &file.content {
                Some(bytes) => Some(hash_file(bytes.as_slice())),
                None => None,
            };
            let outcome = HashedFile { path: file.record.path.clone(), fingerprint };
            hashed.push(outcome);
        }
        i += 1;
    }
    assert(all.take(i as int) =~= all);
    hashed
}

/// Scans a listing of files and groups them by the SHA-256 fingerprint of
/// their content. The files that pass the filter and could be read are
/// grouped; each is listed once, under the fingerprint of its bytes.
///
/// The listing holds the bytes of every readable file. A caller that hashes
/// files from disk selects with `select_candidates`, hashes each candidate
/// with a `FileHasher`, and groups the outcomes with `group_by_fingerprint`:
/// the grouping is the same.
pub fn scan_directory_for_duplicates(files: &Vec<SourceFile>, filters: &FilterOptions) -> (grouping:
    DuplicateGrouping)
    ensures
        grouping@ == grouping_of(scan_outcomes(source_views(files@), filters@)),
        grouping.hashes() == first_seen(scan_outcomes(source_views(files@), filters@)),
        grouping.listing() == groups_of(scan_outcomes(source_views(files@), filters@)),
{
    let hashed = hash_candidates(files, filters);
    group_by_fingerprint(&hashed)
}

/// A scan of files with distinct paths gives hashing outcomes with distinct
/// paths.
pub proof fn lemma_scan_keeps_paths_distinct(files: Seq<SourceView>, criteria: FilterCriteria)
    requires
        paths_are_distinct(files),
    ensures
        hashed_paths_are_distinct(scan_outcomes(files, criteria)),
    decreases files.len(),
{
    if files.len() > 0 {
        let before = files.drop_last();
        lemma_scan_keeps_paths_distinct(before, criteria);
        let earlier = scan_outcomes(before, criteria);
        let all = scan_outcomes(files, criteria);
        assert forall|i: int, j: int| 0 <= i < all.len() && 0 <= j < all.len() && i != j implies (
        #[trigger] all[i]).path != (#[trigger] all[j]).path by {
            if i >= earlier.len() || j >= earlier.len() {
                let inner = if i < earlier.len() {
                    i
                } else {
                    j
                };
                lemma_outcome_has_file(before, criteria, inner);
            }
        }
    }
}

/// Adding criteria to a filter can only remove candidates: every file that
/// is a candidate under the filter with more criteria is one under the
/// filter with fewer.
pub proof fn lemma_more_criteria_fewer_candidates(
    files: Seq<FileFacts>,
    fewer: FilterCriteria,
    more: FilterCriteria,
)
    requires
        fewer.is_refined_by(more),
    ensures
        forall|file: FileFacts|
            accepted_files(files, more).contains(file) ==> accepted_files(files, fewer).contains(
                file,
            ),
    decreases files.len(),
{
    if files.len() > 0 {
        let before = files.drop_last();
        let last = files.last();
        lemma_more_criteria_fewer_candidates(before, fewer, more);
        lemma_filter_monotonic(fewer, more, last);
        let narrow = accepted_files(files, more);
        let wide = accepted_files(files, fewer);
        assert forall|file: FileFacts| narrow.contains(file) implies wide.contains(file) by {
            let k = choose|k: int| 0 <= k < narrow.len() && narrow[k] == file;
            if k < accepted_files(before, more).len() {
                let w = choose|w: int|
                    0 <= w < accepted_files(before, fewer).len() && accepted_files(before, fewer)[w]
                        == file;
                assert(wide[w] == file);
            } else {
                assert(wide[wide.len() - 1] == file);
            }
        }
    }
}

/// The outcome of every accepted file is among the outcomes of the scan.
pub proof fn lemma_accepted_file_is_hashed(
    files: Seq<SourceView>,
    criteria: FilterCriteria,
    at: int,
)
    requires
        0 <= at < files.len(),
        criteria.accepts(files[at].facts),
    ensures
        scan_outcomes(files, criteria).contains(outcome_of(files[at])),
    decreases files.len(),
{
    let outcomes = scan_outcomes(files, criteria);
    let before = files.drop_last();
    if at == files.len() - 1 {
        assert(outcomes[outcomes.len() - 1] == outcome_of(files[at]));
    } else {
        lemma_accepted_file_is_hashed(before, criteria, at);
        let earlier = scan_outcomes(before, criteria);
        let i = choose|i: int| 0 <= i < earlier.len() && earlier[i] == outcome_of(files[at]);
        assert(outcomes[i] == outcome_of(files[at]));
    }
}

/// Every outcome of the scan is the outcome of an accepted file.
pub proof fn lemma_outcome_has_file(files: Seq<SourceView>, criteria: FilterCriteria, at: int)
    requires
        0 <= at < scan_outcomes(files, criteria).len(),
    ensures
        exists|source: int|
            0 <= source < files.len() && criteria.accepts((#[trigger] files[source]).facts)
                && scan_outcomes(files, criteria)[at] == outcome_of(files[source]),
    decreases files.len(),
{
    if files.len() > 0 {
        let before = files.drop_last();
        let earlier = scan_outcomes(before, criteria);
        if at < earlier.len() {
            lemma_outcome_has_file(before, criteria, at);
        }
    }
}

/// Files with byte-identical content are placed in the same group, whatever
/// their names and locations: each accepted, readable file is listed under
/// the fingerprint of its bytes, so two with the same bytes are listed under
/// the same fingerprint.
pub proof fn lemma_identical_content_same_group(
    files: Seq<SourceView>,
    criteria: FilterCriteria,
    first: int,
    second: int,
)
    requires
        0 <= first < files.len(),
        0 <= second < files.len(),
        criteria.accepts(files[first].facts),
        criteria.accepts(files[second].facts),
        files[first].content is Some,
        files[first].content == files[second].content,
    ensures
        ({
            let grouping = grouping_of(scan_outcomes(files, criteria));
            let hash = fingerprint_of(files[first].content->0);
            &&& grouping.contains_key(hash)
            &&& grouping[hash].contains(files[first].facts.path)
            &&& grouping[hash].contains(files[second].facts.path)
        }),
{
    lemma_file_is_grouped(files, criteria, first);
    lemma_file_is_grouped(files, criteria, second);
}

/// An accepted, readable file is listed under the fingerprint of its bytes.
pub proof fn lemma_file_is_grouped(files: Seq<SourceView>, criteria: FilterCriteria, at: int)
    requires
        0 <= at < files.len(),
        criteria.accepts(files[at].facts),
        files[at].content is Some,
    ensures
        ({
            let grouping = grouping_of(scan_outcomes(files, criteria));
            let hash = fingerprint_of(files[at].content->0);
            &&& grouping.contains_key(hash)
            &&& grouping[hash].contains(files[at].facts.path)
        }),
{
    let outcomes = scan_outcomes(files, criteria);
    lemma_accepted_file_is_hashed(files, criteria, at);
    let i = choose|i: int| 0 <= i < outcomes.len() && outcomes[i] == outcome_of(files[at]);
    lemma_hashed_file_is_listed(outcomes, i);
}

/// Files whose content differs are placed in different groups, as long as
/// their fingerprints differ: each is listed under its own fingerprint, and
/// the two fingerprints name two groups. Where no path is listed twice,
/// neither file is listed in the group of the other.
pub proof fn lemma_different_content_different_groups(
    files: Seq<SourceView>,
    criteria: FilterCriteria,
    first: int,
    second: int,
)
    requires
        0 <= first < files.len(),
        0 <= second < files.len(),
        criteria.accepts(files[first].facts),
        criteria.accepts(files[second].facts),
        files[first].content is Some,
        files[second].content is Some,
        fingerprint_of(files[first].content->0) != fingerprint_of(files[second].content->0),
    ensures
        ({
            let grouping = grouping_of(scan_outcomes(files, criteria));
            let hash1 = fingerprint_of(files[first].content->0);
            let hash2 = fingerprint_of(files[second].content->0);
            &&& hash1 != hash2
            &&& grouping.contains_key(hash1) && grouping.contains_key(hash2)
            &&& grouping[hash1].contains(files[first].facts.path)
            &&& grouping[hash2].contains(files[second].facts.path)
            &&& paths_are_distinct(files) ==> !grouping[hash2].contains(files[first].facts.path)
                && !grouping[hash1].contains(files[second].facts.path)
        }),
{
    let hash1 = fingerprint_of(files[first].content->0);
    let hash2 = fingerprint_of(files[second].content->0);
    lemma_file_is_grouped(files, criteria, first);
    lemma_file_is_grouped(files, criteria, second);
    if paths_are_distinct(files) {
        lemma_file_is_in_one_group(files, criteria, first, hash2);
        lemma_file_is_in_one_group(files, criteria, second, hash1);
    }
}

/// Where no path is listed twice, a file is listed under no fingerprint but
/// that of its own bytes.
pub proof fn lemma_file_is_in_one_group(
    files: Seq<SourceView>,
    criteria: FilterCriteria,
    at: int,
    other: Seq<char>,
)
    requires
        0 <= at < files.len(),
        paths_are_distinct(files),
        outcome_of(files[at]).fingerprint != Some(other),
    ensures
        !paths_with(scan_outcomes(files, criteria), other).contains(files[at].facts.path),
{
    let outcomes = scan_outcomes(files, criteria);
    let path = files[at].facts.path;
    if paths_with(outcomes, other).contains(path) {
        lemma_listed_path_has_file(outcomes, other, path);
        let i = choose|i: int|
            0 <= i < outcomes.len() && (#[trigger] outcomes[i]).fingerprint == Some(other)
                && outcomes[i].path == path;
        lemma_outcome_has_file(files, criteria, i);
    }
}

} // verus!
