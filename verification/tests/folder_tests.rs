use winxmerge::folder::{
    compare_entries, compare_folders_with_options, descend_into, format_time, gitignore_patterns, keep_entry,
    should_ignore, CompareMethod, FolderCompareOptions, FolderEntry,
};
use winxmerge::models::FileCompareStatus;

const NANOS: i128 = 1_000_000_000;

fn file(rel: &str, bytes: &[u8], mtime_secs: Option<i128>) -> FolderEntry {
    FolderEntry {
        rel_path: rel.to_string(),
        full_path: format!("/x/{}", rel),
        is_dir: false,
        size: bytes.len() as u64,
        modified: None,
        mtime: mtime_secs.map(|s| s * NANOS),
    }
}

fn dir(rel: &str) -> FolderEntry {
    FolderEntry {
        rel_path: rel.to_string(),
        full_path: format!("/x/{}", rel),
        is_dir: true,
        size: 0,
        modified: None,
        mtime: None,
    }
}

/// The status of two files: by metadata, or by their bytes where the method
/// compares contents.
fn status(le: &FolderEntry, re: &FolderEntry, method: CompareMethod, l: &[u8], r: &[u8]) -> FileCompareStatus {
    compare_entries(le, re, method).unwrap_or(if l == r { FileCompareStatus::Identical } else { FileCompareStatus::Different })
}

#[test]
fn same_size_different_content_is_different_except_size_and_existence() {
    let (l, r) = (b"AAAA", b"BBBB");
    let le = file("left.txt", l, Some(5));
    let re = file("right.txt", r, Some(5));
    assert_eq!(status(&le, &re, CompareMethod::Full, l, r), FileCompareStatus::Different);
    assert_eq!(status(&le, &re, CompareMethod::Quick, l, r), FileCompareStatus::Different);
    assert_eq!(status(&le, &re, CompareMethod::Binary, l, r), FileCompareStatus::Different);
    assert_eq!(status(&le, &re, CompareMethod::Size, l, r), FileCompareStatus::Identical);
    assert_eq!(status(&le, &re, CompareMethod::Existence, l, r), FileCompareStatus::Identical);
}

#[test]
fn same_content_different_mtime_is_different_for_date_methods_only() {
    let c = b"identical content";
    let le = file("left.txt", c, Some(1_000));
    let re = file("right.txt", c, Some(2_000));
    assert_eq!(status(&le, &re, CompareMethod::Date, c, c), FileCompareStatus::Different);
    assert_eq!(status(&le, &re, CompareMethod::SizeDate, c, c), FileCompareStatus::Different);
    assert_eq!(status(&le, &re, CompareMethod::Full, c, c), FileCompareStatus::Identical);
    assert_eq!(status(&le, &re, CompareMethod::Size, c, c), FileCompareStatus::Identical);
}

#[test]
fn same_mtime_different_size_splits_date_from_sizedate() {
    let le = file("left.txt", b"a", Some(1_000));
    let re = file("right.txt", b"ab", Some(1_000));
    assert_eq!(status(&le, &re, CompareMethod::Date, b"a", b"ab"), FileCompareStatus::Identical);
    assert_eq!(status(&le, &re, CompareMethod::SizeDate, b"a", b"ab"), FileCompareStatus::Different);
}

#[test]
fn missing_mtime_is_never_date_identical() {
    let le = file("a", b"x", None);
    let re = file("a", b"x", None);
    assert_eq!(compare_entries(&le, &re, CompareMethod::Date), Some(FileCompareStatus::Different));
    assert_eq!(compare_entries(&le, &re, CompareMethod::Full), None);
}

#[test]
fn compare_method_names_and_indices() {
    assert_eq!(CompareMethod::from_name("SizeDate"), Some(CompareMethod::SizeDate));
    assert_eq!(CompareMethod::from_name("EXISTENCE"), Some(CompareMethod::Existence));
    assert_eq!(CompareMethod::from_name("fast"), None);
    assert_eq!(CompareMethod::from_index(2), CompareMethod::Binary);
    assert_eq!(CompareMethod::from_index(6), CompareMethod::Existence);
    assert_eq!(CompareMethod::from_index(7), CompareMethod::Full);
    assert_eq!(CompareMethod::from_index(-1), CompareMethod::Full);
}

#[test]
fn folder_listing_merges_paths_in_order() {
    let left = vec![file("b.txt", b"1", None), dir("sub"), file("a.txt", b"1", None)];
    let right = vec![file("a.txt", b"2", None), file("sub", b"", None), file("c.txt", b"", None)];
    let opts = FolderCompareOptions::default();
    // Contents are compared for a.txt (the only file pair): they differ.
    let items = compare_folders_with_options(&left, &right, &opts, &vec![false, false, false, false]);
    let paths: Vec<&str> = items.iter().map(|i| i.relative_path.as_str()).collect();
    assert_eq!(paths, vec!["a.txt", "b.txt", "c.txt", "sub"]);
    assert_eq!(items[0].status, FileCompareStatus::Different);
    assert_eq!(items[1].status, FileCompareStatus::LeftOnly);
    assert_eq!(items[2].status, FileCompareStatus::RightOnly);
    // A directory against a file differs.
    assert_eq!(items[3].status, FileCompareStatus::Different);
    assert!(!items[3].is_directory);
    assert_eq!(items[0].left_size, Some(1));
    assert_eq!(items[1].right_path, None);
}

#[test]
fn same_content_flag_makes_files_identical() {
    let left = vec![file("a.txt", b"1", None)];
    let right = vec![file("a.txt", b"1", None)];
    let opts = FolderCompareOptions::default();
    let items = compare_folders_with_options(&left, &right, &opts, &vec![true]);
    assert_eq!(items.len(), 1);
    assert_eq!(items[0].status, FileCompareStatus::Identical);
}

#[test]
fn should_ignore_patterns() {
    let pats = |v: &[&str]| v.iter().map(|s| s.to_string()).collect::<Vec<String>>();
    assert!(should_ignore("build/out.o", &pats(&["build"])));
    assert!(should_ignore("src/app.log", &pats(&["*.log"])));
    assert!(should_ignore("a/node_modules", &pats(&["node_modules/"])));
    assert!(should_ignore("target", &pats(&["/target"])));
    assert!(should_ignore("x/y/Cargo.lock", &pats(&["Cargo.lock"])));
    assert!(!should_ignore("src/main.rs", &pats(&["*.log", "build", ""])));
    assert!(!should_ignore("buildx/a", &pats(&["build"])));
}

#[test]
fn format_time_known_values() {
    assert_eq!(format_time(0), "1970-01-01 00:00");
    assert_eq!(format_time(951_782_400), "2000-02-29 00:00");
    assert_eq!(format_time(86_399), "1970-01-01 23:59");
    assert_eq!(format_time(1_700_000_000), "2023-11-14 22:13");
}

#[test]
fn gitignore_lines_are_trimmed_and_filtered() {
    let pats = gitignore_patterns("# comment\n\n  target/  \n*.log\n");
    assert_eq!(pats, vec!["target/".to_string(), "*.log".to_string()]);
}

#[test]
fn keep_entry_applies_filters() {
    let mut opts = FolderCompareOptions::default();
    let none: Vec<String> = Vec::new();
    assert!(!keep_entry(".git", ".git", "/r/.git", true, 0, &None, &none, &opts));
    opts.extension_filter = vec!["rs".to_string()];
    assert!(keep_entry("a.RS", "a.RS", "/r/a.RS", false, 10, &None, &none, &opts));
    assert!(!keep_entry("a.txt", "a.txt", "/r/a.txt", false, 10, &None, &none, &opts));
    assert!(keep_entry("dir", "dir", "/r/dir", true, 0, &None, &none, &opts));
    opts.extension_filter.clear();
    opts.min_size = 5;
    assert!(!keep_entry("s", "s", "/r/s", false, 4, &None, &none, &opts));
    opts.min_size = 0;
    opts.modified_after = "2024-01-01".to_string();
    let old = Some("2023-12-31 10:00".to_string());
    let new = Some("2024-01-01 00:00".to_string());
    assert!(!keep_entry("f", "f", "/r/f", false, 1, &old, &none, &opts));
    assert!(keep_entry("f", "f", "/r/f", false, 1, &new, &none, &opts));
}

#[test]
fn descend_respects_max_depth() {
    let mut opts = FolderCompareOptions::default();
    assert!(descend_into(100, &opts));
    opts.max_depth = 2;
    assert!(descend_into(0, &opts));
    assert!(!descend_into(1, &opts));
}
