use intelligent_file_deduplicator::filter::{parse_filter_options, FileRecord, FilterOptions};
use regex::Regex;
use std::path::Path;

/// What a scan would know of the file at `path` with `size` bytes.
fn record(path: &str, size: Option<u64>) -> FileRecord {
    let path_ref = Path::new(path);
    FileRecord {
        path: path.to_string(),
        file_name: path_ref.file_name().and_then(|n| n.to_str()).map(|n| n.to_string()),
        extension: path_ref.extension().and_then(|e| e.to_str()).map(|e| e.to_string()),
        size,
    }
}

fn args(list: &[&str]) -> Vec<String> {
    list.iter().map(|s| s.to_string()).collect()
}

#[test]
fn test_filter_options_match() {
    let content = "Sample log\n";
    let file_size = content.len() as u64;
    let file = record("/tmp/scan/test_log.txt", Some(file_size));

    let options = FilterOptions {
        min_size: Some(file_size - 1),
        max_size: Some(file_size + 10),
        extensions: Some(vec!["txt".to_string()]),
        regex: Some(Regex::new(r".*log.*").unwrap()),
    };

    assert!(options.matches(&file));
}

#[test]
fn test_filter_excludes_large_file() {
    let content = format!("{}\n", "X".repeat(10_000));
    let file = record("/tmp/scan/large.txt", Some(content.len() as u64));

    let options = FilterOptions {
        min_size: None,
        max_size: Some(5000),
        extensions: None,
        regex: None,
    };

    assert!(!options.matches(&file));
}

#[test]
fn max_size_of_5000_rejects_a_file_of_10000_bytes() {
    let options = FilterOptions { max_size: Some(5000), ..FilterOptions::default() };
    assert!(!options.matches(&record("big.bin", Some(10_000))));
    assert!(options.matches(&record("edge.bin", Some(5000))));
    assert!(!options.matches(&record("over.bin", Some(5001))));
}

#[test]
fn min_size_is_inclusive() {
    let options = FilterOptions { min_size: Some(100), ..FilterOptions::default() };
    assert!(!options.matches(&record("a", Some(99))));
    assert!(options.matches(&record("a", Some(100))));
    assert!(options.matches(&record("a", Some(u64::MAX))));
}

#[test]
fn no_criteria_match_every_file() {
    let options = FilterOptions::default();
    assert!(options.min_size.is_none());
    assert!(options.max_size.is_none());
    assert!(options.extensions.is_none());
    assert!(options.regex.is_none());
    assert!(options.matches(&record("/a/b/c.txt", Some(0))));
    assert!(options.matches(&record("noext", None)));
    assert!(options.matches(&FileRecord {
        path: String::new(),
        file_name: None,
        extension: None,
        size: None
    }));
}

#[test]
fn unknown_size_skips_the_size_check_but_not_the_others() {
    let sized = FilterOptions {
        min_size: Some(10),
        max_size: Some(20),
        ..FilterOptions::default()
    };
    assert!(sized.matches(&record("a.txt", None)));
    assert!(!sized.matches(&record("a.txt", Some(5))));

    let with_extension = FilterOptions {
        min_size: Some(10),
        extensions: Some(vec!["csv".to_string()]),
        ..FilterOptions::default()
    };
    assert!(!with_extension.matches(&record("a.txt", None)));
    assert!(with_extension.matches(&record("a.csv", None)));
}

#[test]
fn extension_is_compared_without_regard_to_ascii_case() {
    let options = FilterOptions {
        extensions: Some(vec!["txt".to_string(), "CSV".to_string()]),
        ..FilterOptions::default()
    };
    assert!(options.matches(&record("a.txt", None)));
    assert!(options.matches(&record("a.TXT", None)));
    assert!(options.matches(&record("a.csv", None)));
    assert!(options.matches(&record("archive.tar.Csv", None)));
    assert!(!options.matches(&record("a.tx", None)));
    assert!(!options.matches(&record("a.txt2", None)));
}

#[test]
fn a_file_without_extension_fails_an_allow_list() {
    let options = FilterOptions {
        extensions: Some(vec!["txt".to_string()]),
        ..FilterOptions::default()
    };
    assert!(!options.matches(&record("README", Some(1))));
    assert!(!options.matches(&record(".hidden", Some(1))));

    let empty_list = FilterOptions { extensions: Some(vec![]), ..FilterOptions::default() };
    assert!(!empty_list.matches(&record("a.txt", Some(1))));
}

#[test]
fn the_pattern_is_applied_to_the_base_name_not_the_path() {
    let options = FilterOptions {
        regex: Some(Regex::new("^report").unwrap()),
        ..FilterOptions::default()
    };
    assert!(options.matches(&record("/data/2024/report_final.pdf", None)));
    assert!(!options.matches(&record("/report/2024/summary.pdf", None)));
}

#[test]
fn a_file_without_readable_name_fails_a_pattern() {
    let options = FilterOptions {
        regex: Some(Regex::new(".*").unwrap()),
        ..FilterOptions::default()
    };
    let nameless =
        FileRecord { path: "/data/..".to_string(), file_name: None, extension: None, size: None };
    assert!(!options.matches(&nameless));
    assert!(FilterOptions::default().matches(&nameless));
}

#[test]
fn all_criteria_have_to_hold() {
    let options = FilterOptions {
        min_size: Some(10),
        max_size: Some(100),
        extensions: Some(vec!["log".to_string()]),
        regex: Some(Regex::new("^app").unwrap()),
    };
    assert!(options.matches(&record("app.log", Some(50))));
    assert!(!options.matches(&record("app.log", Some(5))));
    assert!(!options.matches(&record("app.log", Some(500))));
    assert!(!options.matches(&record("app.txt", Some(50))));
    assert!(!options.matches(&record("web.log", Some(50))));
}

#[test]
fn adding_a_criterion_never_adds_a_file() {
    let files = [
        record("a.txt", Some(5)),
        record("b.TXT", Some(50)),
        record("c.log", Some(500)),
        record("d", None),
        record("log_e.txt", Some(5000)),
        FileRecord { path: "x".to_string(), file_name: None, extension: None, size: Some(50) },
    ];
    let base = FilterOptions { min_size: Some(10), ..FilterOptions::default() };
    let stricter = [
        FilterOptions { max_size: Some(100), ..base.clone() },
        FilterOptions { extensions: Some(vec!["txt".to_string()]), ..base.clone() },
        FilterOptions { regex: Some(Regex::new("log").unwrap()), ..base.clone() },
        FilterOptions {
            min_size: Some(10),
            max_size: Some(1000),
            extensions: Some(vec!["txt".to_string(), "log".to_string()]),
            regex: Some(Regex::new("^[a-c]").unwrap()),
        },
    ];
    for more in &stricter {
        for file in &files {
            if more.matches(file) {
                assert!(base.matches(file), "{file:?} passes {more:?} but not {base:?}");
            }
            if base.matches(file) {
                assert!(FilterOptions::default().matches(file));
            }
        }
    }
}

#[test]
fn parse_reads_all_four_flags() {
    let options = parse_filter_options(&args(&[
        "--min", "10", "--max", "2000", "--ext", "txt, CSV ,log", "--regex", r"^a.*z\.",
    ]));
    assert_eq!(options.min_size, Some(10));
    assert_eq!(options.max_size, Some(2000));
    assert_eq!(
        options.extensions,
        Some(vec!["txt".to_string(), "CSV".to_string(), "log".to_string()])
    );
    assert_eq!(options.regex.as_ref().map(|r| r.as_str()), Some(r"^a.*z\."));
    assert!(options.matches(&record("abcz.csv", Some(10))));
    assert!(!options.matches(&record("abc.csv", Some(10))));
}

#[test]
fn parse_of_no_arguments_gives_no_criteria() {
    let options = parse_filter_options(&[]);
    assert!(options.min_size.is_none());
    assert!(options.max_size.is_none());
    assert!(options.extensions.is_none());
    assert!(options.regex.is_none());
}

#[test]
fn parse_passes_over_arguments_that_are_no_flags() {
    let options = parse_filter_options(&args(&["--dry-run", "5", "--max", "7", "extra"]));
    assert_eq!(options.min_size, None);
    assert_eq!(options.max_size, Some(7));
}

#[test]
fn parse_drops_a_value_that_is_no_number() {
    let options = parse_filter_options(&args(&["--min", "ten", "--max", "-5"]));
    assert_eq!(options.min_size, None);
    assert_eq!(options.max_size, None);
}

#[test]
fn parse_of_a_flag_without_value_sets_nothing() {
    let options = parse_filter_options(&args(&["--min", "10", "--ext"]));
    assert_eq!(options.min_size, Some(10));
    assert_eq!(options.extensions, None);

    let cleared = parse_filter_options(&args(&["--min", "10", "--min"]));
    assert_eq!(cleared.min_size, None);
}

#[test]
fn parse_lets_the_last_occurrence_of_a_flag_win() {
    let options = parse_filter_options(&args(&["--min", "10", "--min", "20"]));
    assert_eq!(options.min_size, Some(20));

    let dropped = parse_filter_options(&args(&["--max", "10", "--max", "many"]));
    assert_eq!(dropped.max_size, None);
}

#[test]
fn parse_takes_what_follows_a_flag_as_its_value() {
    let options = parse_filter_options(&args(&["--min", "--max", "5"]));
    assert_eq!(options.min_size, None);
    assert_eq!(options.max_size, None);

    let pattern = parse_filter_options(&args(&["--regex", "--ext", "txt"]));
    assert_eq!(pattern.regex.as_ref().map(|r| r.as_str()), Some("--ext"));
    assert_eq!(pattern.extensions, None);
}

#[test]
fn parse_drops_a_pattern_that_does_not_compile() {
    let options = parse_filter_options(&args(&["--regex", "(unclosed"]));
    assert!(options.regex.is_none());
    assert!(options.matches(&record("anything", None)));
}

#[test]
fn parse_keeps_empty_extensions_as_they_are_written() {
    let options = parse_filter_options(&args(&["--ext", ""]));
    assert_eq!(options.extensions, Some(vec![String::new()]));
    let list = parse_filter_options(&args(&["--ext", "a,,b"]));
    assert_eq!(
        list.extensions,
        Some(vec!["a".to_string(), String::new(), "b".to_string()])
    );
}

#[test]
fn a_parsed_pattern_decides_as_the_regex_crate_does() {
    let options = parse_filter_options(&args(&["--regex", r"^\d{4}-\d{2}\.log$"]));
    assert!(options.matches(&record("/var/log/2024-05.log", None)));
    assert!(!options.matches(&record("/var/log/2024-5.log", None)));
    assert!(!options.matches(&record(r"^\d{4}-\d{2}\.log$", None)));
}
