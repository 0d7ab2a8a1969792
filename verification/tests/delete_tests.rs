use intelligent_file_deduplicator::safe_delete::{delete_duplicates, DeletionPlan, GroupDeletion};
use intelligent_file_deduplicator::grouping::DuplicateGrouping;
use std::collections::BTreeSet;

/// Carries the plan out on a set of existing files, as a caller would on
/// disk, and returns the files that exist afterwards.
fn carry_out(plan: &DeletionPlan, existing: &BTreeSet<String>) -> BTreeSet<String> {
    let mut remaining = existing.clone();
    for group in &plan.groups {
        for path in &group.delete {
            if plan.removes_files() {
                remaining.remove(path);
            }
        }
    }
    remaining
}

fn grouping_of(entries: &[(&str, &str)]) -> DuplicateGrouping {
    let mut grouping = DuplicateGrouping::new();
    for (hash, path) in entries {
        grouping.add(hash.to_string(), path.to_string());
    }
    grouping
}

#[test]
fn test_dry_run_deletion() {
    let dir = "/tmp/dedup";

    let file1 = format!("{dir}/dup1.txt");
    let file2 = format!("{dir}/dup2.txt");
    let existing: BTreeSet<String> = [file1.clone(), file2.clone()].into_iter().collect();

    let mut duplicates = DuplicateGrouping::new();
    duplicates.add("dummyhash".to_string(), file1.clone());
    duplicates.add("dummyhash".to_string(), file2.clone());

    // Dry run (no file should be deleted)
    let plan = delete_duplicates(&duplicates, true);
    let remaining = carry_out(&plan, &existing);
    assert!(plan.dry_run);
    assert!(remaining.contains(&file1));
    assert!(remaining.contains(&file2));
}

#[test]
fn test_actual_deletion() {
    let dir = "/tmp/dedup";

    let file1 = format!("{dir}/file1.txt");
    let file2 = format!("{dir}/file2.txt");
    let existing: BTreeSet<String> = [file1.clone(), file2.clone()].into_iter().collect();

    let mut duplicates = DuplicateGrouping::new();
    duplicates.add("hashkey".to_string(), file1.clone());
    duplicates.add("hashkey".to_string(), file2.clone());

    let plan = delete_duplicates(&duplicates, false);
    let after = carry_out(&plan, &existing);

    // Only one file should be kept, so at least one must exist
    let remaining = [after.contains(&file1), after.contains(&file2)];
    assert_eq!(remaining.iter().filter(|&&exists| exists).count(), 1);
}

#[test]
fn the_first_file_of_a_group_is_kept_and_the_others_go() {
    let grouping = grouping_of(&[("h", "a"), ("h", "b"), ("h", "c")]);
    let plan = delete_duplicates(&grouping, false);
    assert_eq!(
        plan,
        DeletionPlan {
            dry_run: false,
            groups: vec![GroupDeletion {
                hash: "h".to_string(),
                keep: "a".to_string(),
                delete: vec!["b".to_string(), "c".to_string()],
            }],
        }
    );
    assert!(plan.removes_files());
}

#[test]
fn a_dry_run_plans_the_same_deletions_and_removes_nothing() {
    let grouping = grouping_of(&[("h", "a"), ("h", "b"), ("h", "c")]);
    let real = delete_duplicates(&grouping, false);
    let dry = delete_duplicates(&grouping, true);
    assert!(dry.dry_run);
    assert!(!dry.removes_files());
    assert_eq!(dry.groups, real.groups);
}

#[test]
fn groups_with_a_single_file_are_left_alone() {
    let grouping = grouping_of(&[("h1", "a"), ("h2", "b"), ("h2", "c"), ("h3", "d")]);
    let plan = delete_duplicates(&grouping, false);
    assert_eq!(plan.groups.len(), 1);
    assert_eq!(plan.groups[0].hash, "h2");
    assert_eq!(plan.groups[0].keep, "b");
    assert_eq!(plan.groups[0].delete, vec!["c"]);
}

#[test]
fn a_grouping_without_duplicates_gives_an_empty_plan() {
    assert!(delete_duplicates(&DuplicateGrouping::new(), false).groups.is_empty());
    assert!(delete_duplicates(&grouping_of(&[("h1", "a"), ("h2", "b")]), false).groups.is_empty());
}

#[test]
fn deletion_leaves_exactly_one_file_of_every_duplicate_group() {
    let mut entries: Vec<(String, String)> = Vec::new();
    for g in 0..6 {
        for k in 0..=g {
            entries.push((format!("hash{g}"), format!("dir{g}/copy{k}")));
        }
    }
    let mut grouping = DuplicateGrouping::new();
    for (hash, path) in &entries {
        grouping.add(hash.clone(), path.clone());
    }
    let existing: BTreeSet<String> = entries.iter().map(|(_, path)| path.clone()).collect();

    let plan = delete_duplicates(&grouping, false);
    let after = carry_out(&plan, &existing);
    for group in grouping.groups() {
        let left = group.files.iter().filter(|p| after.contains(*p)).count();
        assert_eq!(left, 1, "group {}", group.hash);
        assert!(after.contains(&group.files[0]));
    }
    for group in &plan.groups {
        let size = grouping.get(&group.hash).unwrap().len();
        assert!(size >= 2);
        assert_eq!(group.delete.len(), size - 1);
    }
    assert_eq!(existing.len() - after.len(), 1 + 2 + 3 + 4 + 5);

    let dry = delete_duplicates(&grouping, true);
    assert_eq!(carry_out(&dry, &existing), existing);
}
