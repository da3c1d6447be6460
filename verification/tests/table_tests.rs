use winxmerge::table::{
    build_columns, build_table_rows, build_table_rows_3way, extract_table_grid, rebuild_table_csv, TableColumnInfo,
    DEFAULT_COL_WIDTH_PX,
};
use winxmerge::csv::{compare_csv_full, parse_csv};

fn grid(rows: &[&[&str]]) -> Vec<Vec<String>> {
    rows.iter().map(|r| r.iter().map(|s| s.to_string()).collect()).collect()
}

#[test]
fn columns_are_named_and_placed() {
    let (cols, width) = build_columns(3, 80);
    assert_eq!(width, 240);
    let names: Vec<&str> = cols.iter().map(|c| c.name.as_str()).collect();
    assert_eq!(names, vec!["A", "B", "C"]);
    let xs: Vec<i32> = cols.iter().map(|c| c.x_px).collect();
    assert_eq!(xs, vec![0, 80, 160]);
    let (cols, width) = build_columns(0, 80);
    assert!(cols.is_empty());
    assert_eq!(width, 0);
}

#[test]
fn two_way_rows_carry_text_status_and_geometry() {
    let left = grid(&[&["a", "b"], &["x", "y"]]);
    let right = grid(&[&["a", "c"]]);
    let status = vec![vec![0, 1], vec![2, 2]];
    let (cols, _) = build_columns(1, 50);
    let rows = build_table_rows(&left, &right, &status, 2, 2, &cols);
    assert_eq!(rows.len(), 2);
    assert_eq!(rows[0].row_number, 1);
    assert_eq!(rows[0].row_status, 1);
    assert_eq!(rows[1].row_status, 2);
    assert_eq!(rows[0].left_cells[1].text, "b");
    assert_eq!(rows[0].right_cells[1].text, "c");
    assert_eq!(rows[0].right_cells[1].status, 1);
    assert_eq!(rows[1].right_cells[0].text, "");
    assert_eq!(rows[0].left_cells[0].col_width_px, 50);
    // Column 1 has no column info: default geometry.
    assert_eq!(rows[0].left_cells[1].col_x_px, 0);
    assert_eq!(rows[0].left_cells[1].col_width_px, DEFAULT_COL_WIDTH_PX);
    assert!(rows[0].base_cells.is_empty());
}

#[test]
fn two_way_row_status_all_cases() {
    let g = grid(&[&["1", "2"]]);
    let cols: Vec<TableColumnInfo> = Vec::new();
    let status_of = |st: Vec<i32>| build_table_rows(&g, &g, &vec![st], 1, 2, &cols)[0].row_status;
    assert_eq!(status_of(vec![0, 0]), 0);
    assert_eq!(status_of(vec![2, 2]), 2);
    assert_eq!(status_of(vec![3, 3]), 3);
    assert_eq!(status_of(vec![2, 3]), 1);
    assert_eq!(status_of(vec![0, 2]), 1);
}

#[test]
fn three_way_rows_map_statuses() {
    let g = grid(&[&["v"]]);
    let cols: Vec<TableColumnInfo> = Vec::new();
    let row = |s: i32| build_table_rows_3way(&g, &g, &g, &vec![vec![s]], 1, 1, &cols).remove(0);
    let panes = |s: i32| {
        let r = row(s);
        (r.base_cells[0].status, r.left_cells[0].status, r.right_cells[0].status, r.row_status)
    };
    assert_eq!(panes(0), (0, 0, 0, 0));
    assert_eq!(panes(1), (0, 1, 0, 1));
    assert_eq!(panes(2), (0, 0, 1, 1));
    assert_eq!(panes(3), (0, 1, 1, 1));
    assert_eq!(panes(4), (0, 5, 5, 4));
    assert_eq!(panes(5), (2, 4, 4, 5));
    assert_eq!(panes(6), (4, 3, 4, 6));
    assert_eq!(panes(7), (4, 4, 3, 7));
    assert_eq!(panes(9), (0, 0, 0, 1));
}

#[test]
fn grid_and_csv_round_trip_through_table() {
    let text = "name,note\nbob,\"a, b\"\nann,\"say \"\"hi\"\"\"\n";
    let res = compare_csv_full(text, text);
    let (cols, _) = build_columns(res.max_cols, 100);
    let rows = build_table_rows(&res.left_grid, &res.right_grid, &res.cell_status, res.max_rows, res.max_cols, &cols);
    let left = extract_table_grid(&rows, 0);
    assert_eq!(left, res.left_grid);
    let csv = rebuild_table_csv(&rows, 0, b',');
    assert_eq!(csv, text);
    assert_eq!(parse_csv(&csv, b','), res.left_grid);
    // Pane 1 is the (empty) base pane of a two-way table.
    assert_eq!(extract_table_grid(&rows, 1), vec![Vec::<String>::new(); 3]);
    assert_eq!(rebuild_table_csv(&rows, 1, b','), "\n\n\n");
}

#[test]
fn tab_delimited_csv_quotes_tabs() {
    let g = grid(&[&["a\tb", "c"]]);
    let cols: Vec<TableColumnInfo> = Vec::new();
    let rows = build_table_rows(&g, &g, &vec![vec![0, 0]], 1, 2, &cols);
    assert_eq!(rebuild_table_csv(&rows, 2, b'\t'), "\"a\tb\"\tc\n");
}
