//! The duplicate report: the groups that hold more than one file.
use crate::grouping::{duplicate_groups, group_views, DuplicateGroup, DuplicateGrouping};
use vstd::prelude::*;

verus! {

/// What a report lists: one entry for each fingerprint that two or more
/// files share, with the paths of those files.
#[derive(Debug, Clone, PartialEq, Eq)]
pub struct Report {
    pub duplicates: Vec<DuplicateGroup>,
}

/// Builds the report on `grouping`. Only groups with two files or more are
/// included, in the order of the grouping, each with all its paths.
pub fn build_report(grouping: &DuplicateGrouping) -> (report: Report)
    ensures
        group_views(report.duplicates@) == duplicate_groups(grouping.listing()),
{
    Report { duplicates: grouping.duplicates() }
}

} // verus!
