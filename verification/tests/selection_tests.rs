use rust_architecture_visualizer::config::project_config::ProjectConfig;
use rust_architecture_visualizer::scanner::rust_scanner::{
    admitted_by, matched_by_any, select_file, select_files, ArchitectureScanner, FileEntry,
    SourcePath,
};

const TEN_MIB: u64 = 10 * 1024 * 1024;

fn entry(full: &str, size: Option<u64>) -> FileEntry {
    let extension = full.rsplit('/').next().and_then(|name| {
        let mut parts = name.rsplitn(2, '.');
        let last = parts.next();
        match parts.next() {
            Some(before) if !before.is_empty() => last.map(|e| e.to_string()),
            _ => None,
        }
    });
    FileEntry {
        path: SourcePath { full: full.to_string(), relative: None, file_stem: None, extension },
        size,
    }
}

fn with_patterns(excluded: &[&str], admitted: &[&str], max: Option<usize>) -> ArchitectureScanner {
    let mut config = ProjectConfig::default();
    config.scanning.exclude_patterns = excluded.iter().map(|s| s.to_string()).collect();
    config.scanning.include_patterns = admitted.iter().map(|s| s.to_string()).collect();
    config.scanning.max_file_size = max;
    ArchitectureScanner::new("/p", config)
}

fn picked(scanner: &ArchitectureScanner, entries: &Vec<FileEntry>) -> Vec<String> {
    scanner.find_rust_files(entries).into_iter().map(|p| p.full).collect()
}

#[test]
fn a_source_file_within_all_limits_is_selected() {
    let e = entry("src/lib.rs", Some(100));
    assert!(select_file(&e, false, true, Some(1000)));
    assert!(select_file(&e, false, true, None));
    assert!(select_file(&entry("src/lib.rs", None), false, true, Some(1)));
}

#[test]
fn only_rust_sources_are_selected() {
    assert!(!select_file(&entry("src/lib.txt", Some(1)), false, true, None));
    assert!(!select_file(&entry("src/Makefile", Some(1)), false, true, None));
    assert!(!select_file(&entry("src/lib.RS", Some(1)), false, true, None));
    assert!(!select_file(&entry("src/lib.rss", Some(1)), false, true, None));
}

#[test]
fn exclusion_takes_precedence_over_inclusion() {
    let e = entry("src/lib.rs", Some(100));
    assert!(!select_file(&e, true, true, None));
    assert!(!select_file(&e, true, false, None));
}

#[test]
fn a_file_that_is_not_included_is_left_out() {
    assert!(!select_file(&entry("src/lib.rs", Some(100)), false, false, None));
}

#[test]
fn a_file_above_the_size_limit_is_left_out() {
    let e = entry("src/lib.rs", Some(1001));
    assert!(!select_file(&e, false, true, Some(1000)));
    assert!(select_file(&entry("src/lib.rs", Some(1000)), false, true, Some(1000)));
    assert!(select_file(&e, false, true, None));
}

#[test]
fn default_patterns_select_sources_outside_build_and_hidden_places() {
    let scanner = ArchitectureScanner::new("/p", ProjectConfig::default());
    let entries = vec![
        entry("src/lib.rs", Some(10)),
        entry("target/debug/build.rs", Some(10)),
        entry("crates/x/target/y.rs", Some(10)),
        entry("src/.hidden.rs", Some(10)),
        entry("lib.rs", Some(10)),
        entry("src/main.txt", Some(10)),
        entry("deps/node_modules/pkg/index.rs", Some(10)),
        entry("src/scanner/mod.rs", None),
    ];
    assert_eq!(picked(&scanner, &entries), vec!["src/lib.rs", "lib.rs", "src/scanner/mod.rs"]);
}

#[test]
fn a_file_matching_an_include_and_an_exclude_pattern_is_excluded() {
    let scanner = with_patterns(&["**/generated/**"], &["**/*.rs"], None);
    assert!(scanner.should_include_file("src/generated/api.rs"));
    assert!(scanner.should_exclude_file("src/generated/api.rs"));
    let entries = vec![entry("src/generated/api.rs", Some(1)), entry("src/api.rs", Some(1))];
    assert_eq!(picked(&scanner, &entries), vec!["src/api.rs"]);
}

#[test]
fn a_file_above_the_size_limit_never_appears() {
    let scanner = ArchitectureScanner::new("/p", ProjectConfig::default());
    let entries = vec![
        entry("src/big.rs", Some(TEN_MIB + 1)),
        entry("src/edge.rs", Some(TEN_MIB)),
        entry("src/unknown.rs", None),
    ];
    assert_eq!(picked(&scanner, &entries), vec!["src/edge.rs", "src/unknown.rs"]);
    let unlimited = with_patterns(&[], &[], None);
    assert_eq!(picked(&unlimited, &entries), vec!["src/big.rs", "src/edge.rs", "src/unknown.rs"]);
}

#[test]
fn without_patterns_every_source_within_the_limit_is_selected() {
    let scanner = with_patterns(&[], &[], Some(5));
    let entries = vec![
        entry("target/a.rs", Some(5)),
        entry(".hidden/b.rs", Some(6)),
        entry("c.txt", Some(1)),
        entry("d.rs", None),
    ];
    assert_eq!(picked(&scanner, &entries), vec!["target/a.rs", "d.rs"]);
    assert!(!scanner.should_exclude_file("target/a.rs"));
    assert!(scanner.should_include_file("anything"));
}

#[test]
fn include_patterns_admit_only_what_one_of_them_matches() {
    let scanner = with_patterns(&[], &["src/**", "lib.rs"], None);
    assert!(scanner.should_include_file("src/a/b.rs"));
    assert!(scanner.should_include_file("lib.rs"));
    assert!(!scanner.should_include_file("tests/a.rs"));
    let entries = vec![entry("src/a/b.rs", None), entry("tests/a.rs", None), entry("lib.rs", None)];
    assert_eq!(picked(&scanner, &entries), vec!["src/a/b.rs", "lib.rs"]);
}

#[test]
fn an_invalid_pattern_matches_nothing() {
    let scanner = with_patterns(&["a**b", "src/[x"], &["a**b"], None);
    assert!(!scanner.should_exclude_file("a**b"));
    assert!(!scanner.should_exclude_file("src/x"));
    assert!(!scanner.should_include_file("a**b"));
}

#[test]
fn patterns_are_matched_against_the_path_and_not_handed_back() {
    let scanner = with_patterns(&["*.bak"], &["*.rs"], None);
    assert!(scanner.should_exclude_file("old.bak"));
    assert!(!scanner.should_exclude_file("old.rs"));
    assert!(scanner.should_include_file("old.rs"));
    assert!(!scanner.should_include_file("*.bak"));
}

#[test]
fn no_entries_give_no_files() {
    let scanner = ArchitectureScanner::new("/p", ProjectConfig::default());
    assert!(picked(&scanner, &Vec::new()).is_empty());
}

#[test]
fn scanner_keeps_its_path_and_configuration() {
    let config = ProjectConfig::default();
    let scanner = ArchitectureScanner::new("/some/project", config.clone());
    assert_eq!(scanner.project_path, "/some/project");
    assert_eq!(scanner.config, config);
}

#[test]
fn files_are_selected_by_the_verdicts_on_each() {
    let entries = vec![
        entry("a.rs", Some(1)),
        entry("b.rs", Some(1)),
        entry("c.rs", Some(9)),
        entry("d.txt", Some(1)),
        entry("e.rs", None),
    ];
    let excluded = vec![false, true, false, false, false];
    let included = vec![true, true, true, true, false];
    let files: Vec<String> =
        select_files(&entries, &excluded, &included, Some(5)).into_iter().map(|p| p.full).collect();
    assert_eq!(files, vec!["a.rs"]);
    let all = vec![true; 5];
    let none = vec![false; 5];
    let files: Vec<String> =
        select_files(&entries, &none, &all, None).into_iter().map(|p| p.full).collect();
    assert_eq!(files, vec!["a.rs", "b.rs", "c.rs", "e.rs"]);
    assert!(select_files(&entries, &all, &all, None).is_empty());
}

#[test]
fn entries_without_verdicts_are_left_out() {
    let entries = vec![entry("a.rs", None), entry("b.rs", None), entry("c.rs", None)];
    let files: Vec<String> = select_files(&entries, &vec![false, false], &vec![true, true, true], None)
        .into_iter()
        .map(|p| p.full)
        .collect();
    assert_eq!(files, vec!["a.rs", "b.rs"]);
    assert!(select_files(&entries, &Vec::new(), &vec![true], None).is_empty());
}

#[test]
fn a_path_is_excluded_where_any_pattern_matches() {
    assert!(!matched_by_any(&Vec::new()));
    assert!(!matched_by_any(&vec![false]));
    assert!(!matched_by_any(&vec![false, false, false]));
    assert!(matched_by_any(&vec![true]));
    assert!(matched_by_any(&vec![false, false, true]));
    assert!(matched_by_any(&vec![true, false, false]));
}

#[test]
fn a_path_is_admitted_without_patterns_or_where_one_matches() {
    assert!(admitted_by(&Vec::new()));
    assert!(!admitted_by(&vec![false]));
    assert!(!admitted_by(&vec![false, false]));
    assert!(admitted_by(&vec![false, true]));
    assert!(admitted_by(&vec![true]));
}

#[test]
fn a_later_pattern_decides_where_the_earlier_ones_do_not_match() {
    let scanner = with_patterns(&["*.bak", "a**b", "docs/**"], &["*.toml", "src/**"], None);
    assert!(scanner.should_exclude_file("docs/guide.rs"));
    assert!(!scanner.should_exclude_file("src/guide.rs"));
    assert!(scanner.should_include_file("src/guide.rs"));
    assert!(!scanner.should_include_file("docs/guide.rs"));
}
