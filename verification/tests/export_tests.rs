use std::collections::HashMap;
use winxmerge::diff_engine::{compute_diff_with_options, DiffOptions};
use winxmerge::export::{
    escape_html, export_all_comments_csv, export_all_comments_json, export_csv, export_folder_html, export_html,
    export_html_for_print, export_unified_diff, export_xlsx, xlsx_cells, CommentEntry, XlsxStyle, XlsxValue,
};
use winxmerge::models::{DiffLine, DiffResult, FileCompareStatus, FolderItem, LineStatus};

fn diff(l: &str, r: &str) -> DiffResult {
    compute_diff_with_options(l, r, &DiffOptions::default())
}

fn comment(tab: &str, block: usize, text: &str) -> CommentEntry {
    CommentEntry {
        tab_title: tab.to_string(),
        left_file: "l.txt".to_string(),
        right_file: "r \"x\".txt".to_string(),
        diff_block: block,
        comment: text.to_string(),
    }
}

#[test]
fn html_escaping() {
    assert_eq!(escape_html("a<b> & \"c\"\td"), "a&lt;b&gt;&nbsp;&amp;&nbsp;&quot;c&quot;&nbsp;&nbsp;&nbsp;&nbsp;d");
    assert_eq!(escape_html(""), "");
}

#[test]
fn comments_as_csv() {
    let out = export_all_comments_csv(&vec![comment("T", 2, "say \"hi\"")]);
    assert_eq!(
        out,
        "Tab,Left File,Right File,Diff Block,Comment\n\"T\",\"l.txt\",\"r \"\"x\"\".txt\",2,\"say \"\"hi\"\"\"\n"
    );
    assert_eq!(export_all_comments_csv(&Vec::new()), "Tab,Left File,Right File,Diff Block,Comment\n");
}

#[test]
fn comments_as_json() {
    let out = export_all_comments_json(&vec![comment("T", 0, "a\\b\nc"), comment("U", 11, "")]);
    assert_eq!(
        out,
        "[\n  {\"tab\":\"T\",\"left_file\":\"l.txt\",\"right_file\":\"r \\\"x\\\".txt\",\"diff_block\":0,\"comment\":\"a\\\\b\\nc\"},\n  {\"tab\":\"U\",\"left_file\":\"l.txt\",\"right_file\":\"r \\\"x\\\".txt\",\"diff_block\":11,\"comment\":\"\"}\n]\n"
    );
    assert_eq!(export_all_comments_json(&Vec::new()), "[\n]\n");
}

#[test]
fn diff_as_csv_and_tsv() {
    let result = diff("a\nb\n", "a\nc\nd\n");
    assert_eq!(
        export_csv(&result, "L", "R", ','),
        "Status,Left Line,Right Line,Left Text,Right Text\nEqual,1,1,\"a\",\"a\"\nModified,2,2,\"b\",\"c\"\nAdded,,3,\"\",\"d\"\n"
    );
    assert!(export_csv(&result, "L", "R", '\t').starts_with("Status\tLeft Line\tRight Line\tLeft Text\tRight Text\nEqual\t1\t1\t"));
}

#[test]
fn unified_diff_hunks() {
    let l = "1\n2\n3\n4\n5\n6\n7\n8\n9\n10\n11\n12\n";
    let r = "1\n2\nthree\n4\n5\n6\n7\n8\n9\n10\n11\n12\n13\n";
    let out = export_unified_diff(&diff(l, r), "a.txt", "b.txt");
    assert_eq!(
        out,
        "--- a.txt\n+++ b.txt\n@@ -1,6 +1,6 @@\n 1\n 2\n-3\n+three\n 4\n 5\n 6\n@@ -10,3 +10,4 @@\n 10\n 11\n 12\n+13\n"
    );
    assert_eq!(export_unified_diff(&diff("x\n", "x\n"), "a", "b"), "--- a\n+++ b\n");
}

#[test]
fn unified_diff_merges_nearby_changes() {
    let l = "a\nb\nc\nd\ne\nf\ng\n";
    let r = "A\nb\nc\nd\ne\nf\nG\n";
    let out = export_unified_diff(&diff(l, r), "l", "r");
    assert_eq!(out, "--- l\n+++ r\n@@ -1,7 +1,7 @@\n-a\n+A\n b\n c\n d\n e\n f\n-g\n+G\n");
}

#[test]
fn folder_report() {
    let item = FolderItem {
        relative_path: "a b.txt".to_string(),
        is_directory: false,
        status: FileCompareStatus::LeftOnly,
        left_path: None,
        right_path: None,
        left_size: None,
        right_size: None,
        left_modified: Some("2024-01-01 10:00".to_string()),
        right_modified: None,
    };
    let out = export_folder_html(&vec![item], "L<", "R");
    assert!(out.starts_with("<!DOCTYPE html>\n<html><head><meta charset=\"utf-8\"><title>Folder Compare</title>\n"));
    assert!(out.contains("<h2>Folder Compare: L&lt; &#x2194; R</h2>\n"));
    assert!(out.contains(
        "<tr><td>a&nbsp;b.txt</td><td style=\"color:#cb2431\">Left only</td><td>2024-01-01 10:00</td><td></td></tr>\n"
    ));
    assert!(out.ends_with("\n</table></body></html>"));
}

#[test]
fn html_report_rows_and_comments() {
    let result = diff("same\nold\n", "same\nnew\n");
    let mut comments = HashMap::new();
    comments.insert(0usize, "check <this>".to_string());
    let out = export_html(&result, "Left", "Right", &comments);
    assert!(out.starts_with("<!DOCTYPE html>\n<html>\n<head>\n<meta charset=\"utf-8\">\n<title>WinXMerge - Diff Report</title>\n<style>\n"));
    assert!(out.contains("<p class=\"summary\">1 differences found</p>\n"));
    assert!(out.contains("<tr class=\"modified\">\n<td class=\"line-no\">2</td><td class=\"content\">old</td>\n"));
    assert!(out.contains("<tr class=\"comment-row\"><td colspan=\"4\">💬 check&nbsp;&lt;this&gt;</td></tr>\n"));
    assert!(out.ends_with("<div class=\"footer\">Generated by WinXMerge</div>\n</body>\n</html>"));
    let print = export_html_for_print(&result, "Left", "Right", &comments);
    let script = "<script>window.onload=function(){window.print();}</script>\n";
    let pos = out.rfind("</body>").unwrap();
    let mut expected = out.clone();
    expected.insert_str(pos, script);
    assert_eq!(print, expected);
}

#[test]
fn xlsx_plan_and_bytes() {
    let result = diff("a\nb\n", "a\nc\n");
    let mut comments = HashMap::new();
    comments.insert(0usize, "note".to_string());
    let cells = xlsx_cells(&result, "L", "R", &comments);
    // Header: 6 cells; equal row: status, 2 numbers, 2 texts; modified row: same + comment.
    assert_eq!(cells.len(), 6 + 5 + 6);
    assert!(cells[..6].iter().all(|c| c.row == 0 && c.style == Some(XlsxStyle::Header)));
    assert!(matches!(&cells[2].value, XlsxValue::Text(t) if t == "L"));
    let last = &cells[cells.len() - 1];
    assert_eq!((last.row, last.col, last.style), (2, 5, Some(XlsxStyle::Modified)));
    assert!(matches!(&last.value, XlsxValue::Text(t) if t == "note"));
    assert!(matches!(cells[7].value, XlsxValue::Number(1)));
    let bytes = export_xlsx(&result, "L", "R", &comments).unwrap();
    assert!(bytes.starts_with(b"PK"));
}

#[test]
fn xlsx_export_fails_for_a_line_longer_than_a_cell() {
    let long = "x".repeat(40_000);
    let result = DiffResult {
        lines: vec![DiffLine {
            left_line_no: None,
            right_line_no: Some(1),
            left_text: String::new(),
            right_text: long,
            status: LineStatus::Added,
            left_word_segments: vec![],
            right_word_segments: vec![],
        }],
        diff_count: 1,
        diff_positions: vec![0],
    };
    assert!(export_xlsx(&result, "L", "R", &HashMap::new()).is_err());
    // A title longer than a cell fails as well; an empty title is fine.
    let ok = diff("a\n", "b\n");
    assert!(export_xlsx(&ok, &"t".repeat(32_768), "R", &HashMap::new()).is_err());
    assert!(export_xlsx(&ok, "", "", &HashMap::new()).is_ok());
}
