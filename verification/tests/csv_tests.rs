use winxmerge::csv::{col_to_name, compare_csv, compare_csv_full, compare_csv_full_3way, is_csv_path, parse_csv};

fn grid(rows: &[&[&str]]) -> Vec<Vec<String>> {
    rows.iter().map(|r| r.iter().map(|s| s.to_string()).collect()).collect()
}

#[test]
fn csv_paths() {
    assert!(is_csv_path("data/table.CSV"));
    assert!(is_csv_path("x.tsv"));
    assert!(!is_csv_path("x.txt"));
    assert!(!is_csv_path("csv"));
}

#[test]
fn column_names_are_spreadsheet_letters() {
    assert_eq!(col_to_name(0), "A");
    assert_eq!(col_to_name(25), "Z");
    assert_eq!(col_to_name(26), "AA");
    assert_eq!(col_to_name(27), "AB");
    assert_eq!(col_to_name(51), "AZ");
    assert_eq!(col_to_name(52), "BA");
    assert_eq!(col_to_name(701), "ZZ");
    assert_eq!(col_to_name(702), "AAA");
}

#[test]
fn parse_handles_quotes_delimiters_and_crlf() {
    let rows = parse_csv("a,\"b,c\",\"say \"\"hi\"\"\"\r\n1,2\n\"multi\nline\",x", b',');
    assert_eq!(rows, grid(&[&["a", "b,c", "say \"hi\""], &["1", "2"], &["multi\nline", "x"]]));
}

#[test]
fn parse_edge_cases() {
    assert_eq!(parse_csv("", b','), Vec::<Vec<String>>::new());
    assert_eq!(parse_csv("a\n", b','), grid(&[&["a"]]));
    assert_eq!(parse_csv("a,\n", b','), grid(&[&["a", ""]]));
    assert_eq!(parse_csv("\n\n", b','), grid(&[&[""], &[""]]));
    assert_eq!(parse_csv("a\tb", b'\t'), grid(&[&["a", "b"]]));
    // A trailing delimiter with nothing after it still ends the row.
    assert_eq!(parse_csv("x,", b','), grid(&[&["x", ""]]));
}

#[test]
fn full_compare_statuses() {
    let res = compare_csv_full("a,b\n1,2\n3,4\n", "a,b\n1,9\n");
    assert_eq!(res.max_rows, 3);
    assert_eq!(res.max_cols, 2);
    assert_eq!(res.cell_status, vec![vec![0, 0], vec![0, 1], vec![2, 2]]);
    assert_eq!(res.diff_count, 3);
    assert_eq!(res.left_grid.len(), 3);
    assert_eq!(res.right_grid.len(), 2);
}

#[test]
fn full_compare_short_row_counts_missing_cells_as_empty() {
    let res = compare_csv_full("a,b,c\n", "a,b\n");
    assert_eq!(res.max_cols, 3);
    assert_eq!(res.cell_status, vec![vec![0, 0, 1]]);
    let res = compare_csv_full("a,b,\n", "a,b\n");
    assert_eq!(res.cell_status, vec![vec![0, 0, 0]]);
    assert_eq!(res.diff_count, 0);
}

#[test]
fn tab_delimiter_is_detected_from_first_line() {
    let res = compare_csv_full("a\tb\tc,d\n", "a\tb\tc,d\n");
    assert_eq!(res.max_cols, 3);
    assert_eq!(res.left_grid[0], vec!["a".to_string(), "b".to_string(), "c,d".to_string()]);
    // As many tabs as commas: comma.
    let res = compare_csv_full("a\tb,c\n", "a\tb,c\n");
    assert_eq!(res.left_grid[0], vec!["a\tb".to_string(), "c".to_string()]);
}

#[test]
fn three_way_statuses() {
    let base = "k,v\n1,a\n2,b\n3,c\n4,d\n";
    let left = "k,v\n1,A\n2,b\n3,X\n4,Y\n5,e\n";
    let right = "k,v\n1,a\n2,B\n3,X\n4,Z\n";
    let res = compare_csv_full_3way(base, left, right);
    assert_eq!(res.max_rows, 6);
    assert_eq!(
        res.cell_status,
        vec![vec![0, 0], vec![0, 1], vec![0, 2], vec![0, 3], vec![0, 4], vec![6, 6]]
    );
    assert_eq!(res.diff_count, 6);
    assert_eq!(res.conflict_count, 1);
}

#[test]
fn three_way_row_presence() {
    let res = compare_csv_full_3way("a\nb\n", "a\n", "a\n");
    assert_eq!(res.cell_status, vec![vec![0], vec![5]]);
    let res = compare_csv_full_3way("a\n", "a\n", "a\nz\n");
    assert_eq!(res.cell_status, vec![vec![0], vec![7]]);
    let res = compare_csv_full_3way("a\n", "a\nx\n", "a\ny\n");
    assert_eq!(res.cell_status, vec![vec![0], vec![4]]);
    assert_eq!(res.conflict_count, 1);
    let res = compare_csv_full_3way("a\n", "a\nx\n", "a\nx\n");
    assert_eq!(res.cell_status, vec![vec![0], vec![3]]);
}

#[test]
fn cell_diffs_list_only_differences() {
    let diffs = compare_csv("a,b\n1,2\nonly\n", "a,c\n1,2\n");
    assert_eq!(diffs.len(), 2);
    assert_eq!((diffs[0].row, diffs[0].col, diffs[0].col_name.as_str()), (1, 2, "B"));
    assert_eq!((diffs[0].left_value.as_str(), diffs[0].right_value.as_str(), diffs[0].status), ("b", "c", 1));
    assert_eq!((diffs[1].row, diffs[1].col, diffs[1].status), (3, 1, 2));
    assert_eq!(diffs[1].left_value, "only");
    assert_eq!(diffs[1].right_value, "");
    let diffs = compare_csv("a\n", "a\nx,y\n");
    assert_eq!(diffs.len(), 2);
    assert_eq!((diffs[1].row, diffs[1].col, diffs[1].status), (2, 2, 3));
}
