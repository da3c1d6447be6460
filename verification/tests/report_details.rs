use std::collections::HashMap;
use winxmerge::csv::{is_csv_path, parse_csv};
use winxmerge::diff_engine::{compute_diff_with_options, DiffOptions};
use winxmerge::export::{
    export_all_comments_json, export_html, export_unified_diff, export_xlsx, fill_of, fill_report_sheet, xlsx_cells,
    CommentEntry, XlsxStyle,
};
use winxmerge::models::{DiffResult, LineStatus};
use winxmerge::three_way::{three_way_from_hunks, Hunk, ThreeWayStatus};

fn diff(l: &str, r: &str) -> DiffResult {
    compute_diff_with_options(l, r, &DiffOptions::default())
}

fn statuses(r: &DiffResult) -> Vec<LineStatus> {
    r.lines.iter().map(|l| l.status.clone()).collect()
}

#[test]
fn csv_cells_keep_non_ascii_characters() {
    assert_eq!(parse_csv("é,x\n", b','), vec![vec!["é".to_string(), "x".to_string()]]);
    assert_eq!(parse_csv("\"日本\";ü\n", b';'), vec![vec!["日本".to_string(), "ü".to_string()]]);
}

#[test]
fn comments_json_escapes_control_characters() {
    let entry = CommentEntry {
        tab_title: "t\tab".to_string(),
        left_file: "l".to_string(),
        right_file: "r".to_string(),
        diff_block: 3,
        comment: "a\rb\u{1}c\u{1f}".to_string(),
    };
    let out = export_all_comments_json(&vec![entry]);
    assert_eq!(
        out,
        "[\n  {\"tab\":\"t\\tab\",\"left_file\":\"l\",\"right_file\":\"r\",\"diff_block\":3,\"comment\":\"a\\rb\\u0001c\\u001F\"}\n]\n"
    );
}

#[test]
fn html_comment_follows_last_row_of_its_block() {
    let result = diff("a\nb\nc\nd\ne\n", "A\nB\nc\nd\nE\n");
    assert_eq!(
        statuses(&result),
        vec![LineStatus::Modified, LineStatus::Modified, LineStatus::Equal, LineStatus::Equal, LineStatus::Modified]
    );
    let mut comments = HashMap::new();
    comments.insert(0usize, "first".to_string());
    comments.insert(1usize, "second".to_string());
    let out = export_html(&result, "L", "R", &comments);
    let first = out.find("💬 first").unwrap();
    let second = out.find("💬 second").unwrap();
    let row_b = out.find("<td class=\"content\">b</td>").unwrap();
    let row_c = out.find("<td class=\"content\">c</td>").unwrap();
    let row_e = out.find("<td class=\"content\">e</td>").unwrap();
    assert!(row_b < first && first < row_c);
    assert!(row_e < second);
}

#[test]
fn unified_diff_prints_each_moved_line_once() {
    let result = diff("x\na\nb\n", "a\nb\nx\n");
    assert_eq!(statuses(&result), vec![LineStatus::Moved, LineStatus::Equal, LineStatus::Equal, LineStatus::Moved]);
    let out = export_unified_diff(&result, "l", "r");
    assert!(out.contains("-x\n a\n b\n+x\n"));
    assert_eq!(out.matches("-x\n").count(), 1);
    assert_eq!(out.matches("+x\n").count(), 1);
}

#[test]
fn unified_diff_keeps_empty_modified_side() {
    let result = diff("a\n\nc\n", "a\nb\nc\n");
    let out = export_unified_diff(&result, "l", "r");
    assert_eq!(out, "--- l\n+++ r\n@@ -1,3 +1,3 @@\n a\n-\n+b\n c\n");
}

#[test]
fn extension_is_taken_after_the_last_dot_of_the_file_name() {
    assert!(is_csv_path("dir/a.csv"));
    assert!(is_csv_path("a.tar.TSV"));
    assert!(!is_csv_path(".csv"));
    assert!(!is_csv_path("dir.csv/file"));
    assert!(!is_csv_path("file.csv."));
    assert!(!is_csv_path("csv"));
    assert!(is_csv_path("x/a.csv/"));
    assert!(is_csv_path("x/a.csv//"));
    assert!(is_csv_path("x/a.csv/."));
    assert!(!is_csv_path("x/a.csv/.."));
    assert!(!is_csv_path("/"));
    assert!(!is_csv_path("./"));
}

#[test]
fn report_fills_by_style() {
    assert_eq!(fill_of(XlsxStyle::Header), (true, 0xF0F0F0));
    assert_eq!(fill_of(XlsxStyle::Added), (false, 0xE6FFEC));
    assert_eq!(fill_of(XlsxStyle::Removed), (false, 0xFFEBE9));
    assert_eq!(fill_of(XlsxStyle::Modified), (false, 0xFFF8C5));
    assert_eq!(fill_of(XlsxStyle::Moved), (false, 0xE0E8FF));
}

#[test]
fn report_sheet_fills_when_every_cell_fits() {
    let result = diff("a\nb\n", "a\nc\n");
    let comments = HashMap::new();
    let cells = xlsx_cells(&result, "L", "R", &comments);
    let mut wb = rust_xlsxwriter::Workbook::new();
    wb.add_worksheet();
    assert!(fill_report_sheet(&mut wb, &cells, 2).is_ok());
    let mut wb2 = rust_xlsxwriter::Workbook::new();
    wb2.add_worksheet();
    assert!(fill_report_sheet(&mut wb2, &cells, 2_000_000).is_err());
}

#[test]
fn report_export_fails_on_a_cell_too_long() {
    let result = diff("a\n", "b\n");
    let comments = HashMap::new();
    let long_title = "x".repeat(40_000);
    assert!(export_xlsx(&result, &long_title, "R", &comments).is_err());
    assert!(export_xlsx(&result, "L", "R", &comments).is_ok());
}

#[test]
fn line_diff_pairs_equal_lines_and_numbers_rows() {
    let result = diff("a\nb\nc\n", "a\nx\nc\n");
    assert_eq!(statuses(&result), vec![LineStatus::Equal, LineStatus::Modified, LineStatus::Equal]);
    let nums: Vec<(Option<u32>, Option<u32>)> = result.lines.iter().map(|l| (l.left_line_no, l.right_line_no)).collect();
    assert_eq!(nums, vec![(Some(1), Some(1)), (Some(2), Some(2)), (Some(3), Some(3))]);
    let mut opts = DiffOptions::default();
    opts.ignore_case = true;
    let same = compute_diff_with_options("Hello\n", "hello\n", &opts);
    assert_eq!(statuses(&same), vec![LineStatus::Equal]);
    assert_eq!(same.diff_count, 0);
}

fn strs(v: &[&str]) -> Vec<String> {
    v.iter().map(|s| s.to_string()).collect()
}

#[test]
fn three_way_statuses_follow_the_hunks() {
    let base = strs(&["a", "b", "c"]);
    let h0 = Hunk { old_start: 0, old_end: 1, new_start: 0, new_end: 1 };
    let h2 = Hunk { old_start: 2, old_end: 3, new_start: 2, new_end: 3 };
    let r = three_way_from_hunks(&base, &strs(&["A", "b", "c"]), &strs(&["a", "b", "C"]), &vec![h0], &vec![h2]);
    let st: Vec<ThreeWayStatus> = r.lines.iter().map(|l| l.status).collect();
    assert_eq!(st, vec![ThreeWayStatus::LeftChanged, ThreeWayStatus::Equal, ThreeWayStatus::RightChanged]);
    assert_eq!(r.conflict_count, 0);
    assert_eq!(r.conflict_positions, vec![0, 2]);
    let same = three_way_from_hunks(&base, &strs(&["X", "b", "c"]), &strs(&["X", "b", "c"]), &vec![h0], &vec![h0]);
    assert_eq!(same.lines[0].status, ThreeWayStatus::BothChanged);
    assert_eq!(same.conflict_count, 0);
    let clash = three_way_from_hunks(&base, &strs(&["X", "b", "c"]), &strs(&["Y", "b", "c"]), &vec![h0], &vec![h0]);
    assert_eq!(clash.lines[0].status, ThreeWayStatus::Conflict);
    assert_eq!(clash.conflict_count, 1);
}

/// Applies a unified diff's hunks to the left lines.
fn apply_unified(left: &[&str], patch: &str) -> Vec<String> {
    let mut out: Vec<String> = Vec::new();
    let mut pos = 0usize;
    for line in patch.lines().skip(2) {
        if let Some(rest) = line.strip_prefix("@@ -") {
            let start: usize = rest.split(',').next().unwrap().parse().unwrap();
            let count: usize = rest.split(',').nth(1).unwrap().split(' ').next().unwrap().parse().unwrap();
            let begin = if count == 0 { start } else { start - 1 };
            while pos < begin {
                out.push(left[pos].to_string());
                pos += 1;
            }
        } else if let Some(t) = line.strip_prefix('+') {
            out.push(t.to_string());
        } else if line.starts_with('-') {
            pos += 1;
        } else if let Some(t) = line.strip_prefix(' ') {
            out.push(t.to_string());
            pos += 1;
        }
    }
    while pos < left.len() {
        out.push(left[pos].to_string());
        pos += 1;
    }
    out
}

#[test]
fn unified_diff_applies_to_the_left_lines() {
    let l = "1\n2\n3\n4\n5\n6\n7\n8\n9\n10\n11\n12\n13\n14\n";
    let r = "0\n1\n2\nthree\n4\n5\n6\n7\n8\n9\n10\n12\n13\n14\n15\n";
    let out = export_unified_diff(&diff(l, r), "a", "b");
    let left: Vec<&str> = l.lines().collect();
    let right: Vec<String> = r.lines().map(|s| s.to_string()).collect();
    assert_eq!(apply_unified(&left, &out), right);
}

#[test]
fn equal_texts_give_no_differences() {
    let same = diff("a\nb\nc\n", "a\nb\nc\n");
    assert_eq!(same.diff_count, 0);
    assert!(same.lines.iter().all(|l| l.status == LineStatus::Equal));
    let mut opts = DiffOptions::default();
    opts.ignore_blank_lines = true;
    let blanks = compute_diff_with_options("a\n\nb\n", "a\nb\n\n", &opts);
    assert_eq!(blanks.diff_count, 0);
    assert!(blanks.lines.iter().all(|l| l.status == LineStatus::Equal));
}

#[test]
fn three_way_equal_rows_hold_the_same_line() {
    let r = winxmerge::three_way::compute_three_way_diff("aaa\nbbb\nccc\n", "AAA\nbbb\nccc\n", "aaa\nbbb\nCCC\n");
    for line in &r.lines {
        if line.status == ThreeWayStatus::Equal {
            assert_eq!(line.left_text, line.base_text);
            assert_eq!(line.right_text, line.base_text);
            assert!(line.left_line_no.is_some() && line.base_line_no.is_some() && line.right_line_no.is_some());
        }
    }
    assert_eq!(r.lines[1].base_text, "bbb");
    assert_eq!(r.lines[1].left_line_no, Some(2));
}

#[test]
fn shared_leading_lines_stay_equal_rows() {
    let r = diff("a\nb\nc\nd\n", "a\nb\nx\ny\nz\n");
    assert_eq!(r.lines[0].status, LineStatus::Equal);
    assert_eq!(r.lines[1].status, LineStatus::Equal);
    let grouped = diff("a\nb\nc\n", "x\ny\np\nq\nc\n");
    assert_eq!(grouped.diff_positions.len(), 1);
    assert_eq!(grouped.lines.iter().filter(|l| l.status == LineStatus::Modified).count(), 2);
    assert_eq!(grouped.lines.iter().filter(|l| l.status == LineStatus::Added).count(), 2);
}

#[test]
fn report_export_succeeds_when_cells_fit() {
    let result = diff("a\nb\nc\n", "a\nx\nc\n");
    let mut comments = HashMap::new();
    comments.insert(0usize, "why".to_string());
    let bytes = export_xlsx(&result, "Left", "Right", &comments).unwrap();
    assert!(bytes.starts_with(b"PK"));
}
