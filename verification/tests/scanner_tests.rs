use intelligent_file_deduplicator::filter::{FileRecord, FilterOptions};
use intelligent_file_deduplicator::hashing::hash_file;
use intelligent_file_deduplicator::grouping::{
    group_by_fingerprint, DuplicateGroup, DuplicateGrouping, HashedFile,
};
use intelligent_file_deduplicator::scanner::{
    hash_candidates, scan_directory_for_duplicates, select_candidates, SourceFile,
};
use std::path::{Path, PathBuf};

fn record(path: &str, size: Option<u64>) -> FileRecord {
    let path_ref = Path::new(path);
    FileRecord {
        path: path.to_string(),
        file_name: path_ref.file_name().and_then(|n| n.to_str()).map(|n| n.to_string()),
        extension: path_ref.extension().and_then(|e| e.to_str()).map(|e| e.to_string()),
        size,
    }
}

fn source(path: &str, content: &[u8]) -> SourceFile {
    SourceFile { record: record(path, Some(content.len() as u64)), content: Some(content.to_vec()) }
}

fn unreadable(path: &str) -> SourceFile {
    SourceFile { record: record(path, None), content: None }
}

fn hashed(path: &str, fingerprint: Option<&str>) -> HashedFile {
    HashedFile { path: path.to_string(), fingerprint: fingerprint.map(|f| f.to_string()) }
}

fn group(hash: &str, files: &[&str]) -> DuplicateGroup {
    DuplicateGroup { hash: hash.to_string(), files: files.iter().map(|f| f.to_string()).collect() }
}

#[test]
fn test_duplicate_detection() {
    let dir = "/tmp/scan";
    let files = vec![
        source(&format!("{dir}/file1.txt"), b"HashLaser\n"),
        source(&format!("{dir}/file2.txt"), b"HashLaser\n"),
        source(&format!("{dir}/file3.txt"), b"Different content\n"),
    ];

    let duplicates = scan_directory_for_duplicates(&files, &FilterOptions::default());

    let mut found = false;
    for DuplicateGroup { hash: _hash, files } in duplicates.groups() {
        if files.len() > 1 {
            found = true;
            let file_names: Vec<_> = files
                .iter()
                .map(|f| {
                    PathBuf::from(f)
                        .file_name()
                        .unwrap()
                        .to_str()
                        .unwrap()
                        .to_string()
                })
                .collect();
            assert!(file_names.contains(&"file1.txt".to_string()));
            assert!(file_names.contains(&"file2.txt".to_string()));
        }
    }

    assert!(found, "Should detect duplicates between file1 and file2");
}

#[test]
fn scan_groups_two_equal_files_and_leaves_the_third_alone() {
    let files = vec![
        source("file1.txt", b"HashLaser\n"),
        source("file2.txt", b"HashLaser\n"),
        source("file3.txt", b"Different content\n"),
    ];
    let grouping = scan_directory_for_duplicates(&files, &FilterOptions::default());

    assert_eq!(grouping.len(), 2);
    assert_eq!(
        grouping.groups(),
        &vec![
            group(&hash_file(b"HashLaser\n"), &["file1.txt", "file2.txt"]),
            group(&hash_file(b"Different content\n"), &["file3.txt"]),
        ]
    );
    assert_eq!(
        grouping.duplicates(),
        vec![group(&hash_file(b"HashLaser\n"), &["file1.txt", "file2.txt"])]
    );
}

#[test]
fn identical_content_is_grouped_whatever_the_name_or_location() {
    let files = vec![
        source("/a/one.txt", b"same bytes"),
        source("/b/deep/down/two.bin", b"same bytes"),
        source("three", b"same bytes"),
        source("/a/other.txt", b"other bytes"),
    ];
    let grouping = scan_directory_for_duplicates(&files, &FilterOptions::default());
    let paths = grouping.get(&hash_file(b"same bytes")).unwrap();
    assert_eq!(paths, &vec!["/a/one.txt", "/b/deep/down/two.bin", "three"]);
}

#[test]
fn differing_content_is_placed_in_different_groups() {
    let files = vec![source("a.txt", b"first"), source("b.txt", b"second")];
    let grouping = scan_directory_for_duplicates(&files, &FilterOptions::default());
    assert_eq!(grouping.len(), 2);
    assert_eq!(grouping.get(&hash_file(b"first")).unwrap(), &vec!["a.txt"]);
    assert_eq!(grouping.get(&hash_file(b"second")).unwrap(), &vec!["b.txt"]);
    assert!(grouping.duplicates().is_empty());
}

#[test]
fn every_scanned_file_is_in_exactly_one_group() {
    let contents: [&[u8]; 4] = [b"a", b"b", b"c", b"a"];
    let files: Vec<SourceFile> = (0..40)
        .map(|i| source(&format!("dir{}/file{}.dat", i % 3, i), contents[i % 4]))
        .collect();
    let grouping = scan_directory_for_duplicates(&files, &FilterOptions::default());

    let mut listed: Vec<String> = Vec::new();
    for group in grouping.groups() {
        assert!(!group.files.is_empty());
        listed.extend(group.files.iter().cloned());
    }
    assert_eq!(listed.len(), files.len());
    for file in &files {
        let hash = hash_file(file.content.as_ref().unwrap());
        let count = listed.iter().filter(|p| **p == file.record.path).count();
        assert_eq!(count, 1);
        assert!(grouping.get(&hash).unwrap().contains(&file.record.path));
    }
    assert_eq!(grouping.len(), 3);
}

#[test]
fn a_file_that_cannot_be_read_is_dropped_and_the_scan_goes_on() {
    let files = vec![
        source("a.txt", b"data"),
        unreadable("locked.txt"),
        source("b.txt", b"data"),
    ];
    let outcomes = hash_candidates(&files, &FilterOptions::default());
    assert_eq!(
        outcomes,
        vec![
            hashed("a.txt", Some(&hash_file(b"data"))),
            hashed("locked.txt", None),
            hashed("b.txt", Some(&hash_file(b"data"))),
        ]
    );
    assert_eq!(outcomes.iter().filter(|o| o.fingerprint.is_none()).count(), 1);

    let grouping = scan_directory_for_duplicates(&files, &FilterOptions::default());
    assert_eq!(grouping.groups(), &vec![group(&hash_file(b"data"), &["a.txt", "b.txt"])]);
}

#[test]
fn scan_of_an_empty_listing_gives_an_empty_grouping() {
    let grouping = scan_directory_for_duplicates(&Vec::new(), &FilterOptions::default());
    assert!(grouping.is_empty());
    assert_eq!(grouping.len(), 0);
    assert!(grouping.groups().is_empty());
    assert!(grouping.duplicates().is_empty());
}

#[test]
fn scan_hashes_only_the_files_that_pass_the_filter() {
    let files = vec![
        source("a.txt", b"data"),
        source("b.log", b"data"),
        source("c.txt", b"data"),
        source("d.txt", b"a much longer piece of data"),
    ];
    let filters = FilterOptions {
        max_size: Some(10),
        extensions: Some(vec!["txt".to_string()]),
        ..FilterOptions::default()
    };
    let grouping = scan_directory_for_duplicates(&files, &filters);
    assert_eq!(grouping.groups(), &vec![group(&hash_file(b"data"), &["a.txt", "c.txt"])]);
}

#[test]
fn select_candidates_keeps_the_accepted_files_in_order() {
    let files = vec![
        record("a.txt", Some(1)),
        record("b.log", Some(2)),
        record("c.TXT", Some(3)),
        record("d", Some(4)),
    ];
    let filters =
        FilterOptions { extensions: Some(vec!["txt".to_string()]), ..FilterOptions::default() };
    let candidates = select_candidates(files.clone(), &filters);
    assert_eq!(candidates, vec![record("a.txt", Some(1)), record("c.TXT", Some(3))]);

    assert_eq!(select_candidates(files.clone(), &FilterOptions::default()), files);
    assert!(select_candidates(Vec::new(), &filters).is_empty());
}

#[test]
fn adding_a_criterion_never_adds_a_candidate() {
    let files = vec![
        record("a.txt", Some(1)),
        record("b.log", Some(20)),
        record("c.txt", Some(300)),
        record("d", None),
    ];
    let fewer = FilterOptions { min_size: Some(10), ..FilterOptions::default() };
    let more = FilterOptions { extensions: Some(vec!["txt".to_string()]), ..fewer.clone() };
    let wide = select_candidates(files.clone(), &fewer);
    let narrow = select_candidates(files, &more);
    assert_eq!(narrow, vec![record("c.txt", Some(300))]);
    for file in &narrow {
        assert!(wide.contains(file));
    }
}

#[test]
fn grouping_lists_files_under_their_fingerprint_in_order_of_arrival() {
    let files = vec![
        hashed("z", Some("h2")),
        hashed("a", Some("h1")),
        hashed("skipped", None),
        hashed("m", Some("h2")),
        hashed("b", Some("h1")),
        hashed("only", Some("h3")),
        hashed("c", Some("h2")),
    ];
    let grouping = group_by_fingerprint(&files);
    assert_eq!(
        grouping.groups(),
        &vec![
            group("h2", &["z", "m", "c"]),
            group("h1", &["a", "b"]),
            group("h3", &["only"]),
        ]
    );
    assert_eq!(grouping.get("h1").unwrap(), &vec!["a", "b"]);
    assert!(grouping.get("h4").is_none());
    assert!(grouping.get("skipped").is_none());
    assert_eq!(
        grouping.duplicates(),
        vec![group("h2", &["z", "m", "c"]), group("h1", &["a", "b"])]
    );
}

#[test]
fn grouping_of_skipped_files_only_is_empty() {
    let grouping = group_by_fingerprint(&vec![hashed("a", None), hashed("b", None)]);
    assert!(grouping.is_empty());
}

#[test]
fn add_opens_a_group_for_a_new_fingerprint_and_extends_a_known_one() {
    let mut grouping = DuplicateGrouping::new();
    assert!(grouping.is_empty());

    grouping.add("h1".to_string(), "a".to_string());
    assert!(!grouping.is_empty());
    assert_eq!(grouping.groups(), &vec![group("h1", &["a"])]);

    grouping.add("h2".to_string(), "b".to_string());
    grouping.add("h1".to_string(), "c".to_string());
    assert_eq!(grouping.len(), 2);
    assert_eq!(grouping.groups(), &vec![group("h1", &["a", "c"]), group("h2", &["b"])]);

    grouping.add("h1".to_string(), "a".to_string());
    assert_eq!(grouping.get("h1").unwrap(), &vec!["a", "c", "a"]);
}

#[test]
fn grouping_many_files_keeps_every_group_intact() {
    let files: Vec<HashedFile> =
        (0..1000).map(|i| hashed(&format!("file{i}"), Some(&format!("hash{}", i % 250)))).collect();
    let grouping = group_by_fingerprint(&files);
    assert_eq!(grouping.len(), 250);
    assert_eq!(grouping.duplicates().len(), 250);
    for (k, group) in grouping.groups().iter().enumerate() {
        assert_eq!(group.hash, format!("hash{k}"));
        let expected: Vec<String> = (0..4).map(|j| format!("file{}", k + 250 * j)).collect();
        assert_eq!(group.files, expected);
    }
}
