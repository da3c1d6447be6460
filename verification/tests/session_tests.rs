use winxmerge::diff_engine::{compute_diff_with_options, DiffOptions};
use winxmerge::diff_view::{build_diff_line_data, build_three_way_line_data};
use winxmerge::session::{
    binary_files_message, compare_kind, encoding_status, rescan_action, rescan_status, search_rows, search_rows_3way,
    search_text, summarize_diff, tab_title, table_highlight_row, CompareKind, RescanAction,
};
use winxmerge::three_way::compute_three_way_diff;
use winxmerge::view::ViewMode;

#[test]
fn compare_kind_by_names_and_bytes() {
    let zip = [0x50u8, 0x4B, 0x03, 0x04, 1, 2];
    assert_eq!(compare_kind("a.bin", &zip, "b.ZIP", b"x"), CompareKind::Zip);
    assert_eq!(compare_kind("a.xlsx", b"x", "b.ods", b"y"), CompareKind::Excel);
    assert_eq!(compare_kind("a.csv", b"x", "b.TSV", b"y"), CompareKind::Csv);
    assert_eq!(compare_kind("a.png", b"\x00", "b.jpg", b"y"), CompareKind::Image);
    assert_eq!(compare_kind("a.csv", b"x", "b.txt", b"y\x00"), CompareKind::Binary);
    assert_eq!(compare_kind("a.txt", b"x", "b.txt", b"y"), CompareKind::Text);
    // A zip on one side only is not an archive comparison.
    assert_eq!(compare_kind("a.zip", b"x", "b.txt", b"y"), CompareKind::Text);
}

#[test]
fn binary_message_reports_sizes() {
    assert_eq!(binary_files_message(b"ab\x00", b"ab\x00"), "Binary files: Left 3 bytes, Right 3 bytes — identical");
    assert_eq!(binary_files_message(b"a", b"\x00bc"), "Binary files: Left 1 bytes, Right 3 bytes — different");
}

#[test]
fn titles_and_encoding_status() {
    assert_eq!(tab_title("a.txt", "b.txt"), "a.txt ↔ b.txt");
    assert_eq!(encoding_status("UTF-8", "Shift_JIS", "Rust", "Text"), " [UTF-8  |  Shift_JIS] (Rust / Text)");
}

#[test]
fn diff_summary_messages() {
    let same = compute_diff_with_options("a\n", "a\n", &DiffOptions::default());
    let s = summarize_diff(&same);
    assert_eq!((s.current_diff, s.stats.as_str(), s.status.as_str()), (-1, "+0 -0 ~0", "Files are identical"));
    let diff = compute_diff_with_options("a\nb\n", "a\nc\nd\n", &DiffOptions::default());
    let s = summarize_diff(&diff);
    assert_eq!(s.current_diff, 0);
    assert_eq!(s.status, "Difference 1 of 1 [+1 -0 ~1]");
}

#[test]
fn rescan_decisions() {
    let fd = ViewMode::FileDiff;
    assert_eq!(rescan_action(fd, false, true, true, false, false), RescanAction::RunDiff);
    assert_eq!(rescan_action(fd, false, true, true, true, false), RescanAction::CompareEdited);
    assert_eq!(rescan_action(fd, false, false, true, false, false), RescanAction::CompareEdited);
    assert_eq!(rescan_action(ViewMode::ThreeWayText, true, true, true, false, false), RescanAction::RunThreeWay);
    assert_eq!(rescan_action(ViewMode::ThreeWayText, false, true, true, false, false), RescanAction::CompareEditedThreeWay);
    assert_eq!(rescan_action(ViewMode::FolderCompare, false, false, false, true, true), RescanAction::RunFolder);
    assert_eq!(rescan_action(ViewMode::CsvCompare, false, true, true, false, false), RescanAction::ReloadTable);
    assert_eq!(rescan_action(ViewMode::ExcelCompare, false, true, true, false, true), RescanAction::CompareEditedTable);
    assert_eq!(rescan_action(ViewMode::ExcelCompare, false, false, true, false, false), RescanAction::Nothing);
    assert_eq!(rescan_action(ViewMode::CsvThreeWay, true, true, true, false, false), RescanAction::ReloadTableThreeWay);
    assert_eq!(rescan_action(ViewMode::CsvThreeWay, true, true, true, true, false), RescanAction::CompareEditedTableThreeWay);
    assert_eq!(rescan_action(ViewMode::ImageCompare, true, true, true, false, false), RescanAction::Nothing);
    assert_eq!(rescan_status(RescanAction::RunDiff), "Files rescanned");
    assert_eq!(rescan_status(RescanAction::RunFolder), "Folders rescanned");
    assert_eq!(rescan_status(RescanAction::CompareEditedTable), "Compared");
    assert_eq!(rescan_status(RescanAction::Nothing), "");
}

#[test]
fn table_highlight() {
    let pos = vec![3usize, 9];
    assert_eq!(table_highlight_row(&pos, 1), 9);
    assert_eq!(table_highlight_row(&pos, -1), -1);
    assert_eq!(table_highlight_row(&pos, 2), -1);
}

#[test]
fn search_marks_rows_ignoring_case() {
    let diff = compute_diff_with_options("Alpha\nbeta\n", "alpha\ngamma\nBETA x\n", &DiffOptions::default());
    let mut rows = build_diff_line_data(&diff, &[], &[], 4);
    let o = search_rows(&mut rows, "BeTa");
    assert_eq!(o.matches.len(), 2);
    assert_eq!(o.current_match, 0);
    assert_eq!(o.status_text, "Found 2 matches for \"BeTa\"");
    let marked: Vec<usize> = rows.iter().enumerate().filter(|(_, r)| r.is_search_match).map(|(i, _)| i).collect();
    assert_eq!(marked, o.matches);
    let o = search_rows(&mut rows, "zzz");
    assert!(o.matches.is_empty());
    assert_eq!(o.current_match, -1);
    assert_eq!(o.status_text, "No matches found for \"zzz\"");
    assert!(rows.iter().all(|r| !r.is_search_match));
    search_rows(&mut rows, "alpha");
    let o = search_rows(&mut rows, "");
    assert_eq!(o.status_text, "Search cleared");
    assert!(rows.iter().all(|r| !r.is_search_match));
}

#[test]
fn search_dispatches_on_view_mode() {
    let res = compute_three_way_diff("base\n", "left\n", "base\n");
    let mut rows3 = build_three_way_line_data(&res);
    let mut rows: Vec<winxmerge::diff_view::DiffLineData> = Vec::new();
    let o = search_text(ViewMode::ThreeWayText, &mut rows, &mut rows3, "LEFT");
    assert_eq!(o.matches, vec![0]);
    assert!(rows3[0].is_search_match);
    let o = search_rows_3way(&mut rows3, "bas");
    assert_eq!(o.matches, vec![0]);
    let o = search_text(ViewMode::FileDiff, &mut rows, &mut rows3, "LEFT");
    assert!(o.matches.is_empty());
    assert!(rows3[0].is_search_match);
}

#[test]
fn pending_action_codes() {
    assert_eq!(winxmerge::session::pending_action_of(1), winxmerge::session::PendingAction::OpenLeftFile);
    assert_eq!(winxmerge::session::pending_action_of(4), winxmerge::session::PendingAction::OpenRightFolder);
    assert_eq!(winxmerge::session::pending_action_of(5), winxmerge::session::PendingAction::NewCompare);
    assert_eq!(winxmerge::session::pending_action_of(0), winxmerge::session::PendingAction::Nothing);
    assert_eq!(winxmerge::session::pending_action_of(9), winxmerge::session::PendingAction::Nothing);
}

#[test]
fn files_changed_only_for_clean_text_views() {
    let check = winxmerge::session::check_files_changed;
    assert!(check(ViewMode::FileDiff, false, false, Some(1), Some(2), None, None));
    assert!(check(ViewMode::ThreeWayText, false, false, Some(1), Some(1), Some(5), Some(6)));
    assert!(!check(ViewMode::FileDiff, false, false, Some(1), Some(1), Some(5), Some(5)));
    assert!(!check(ViewMode::FileDiff, false, false, Some(1), None, None, Some(5)));
    assert!(!check(ViewMode::FileDiff, true, false, Some(1), Some(2), None, None));
    assert!(!check(ViewMode::FileDiff, false, true, Some(1), Some(2), None, None));
    assert!(!check(ViewMode::CsvCompare, false, false, Some(1), Some(2), None, None));
}
