use winxmerge::csv::compare_csv_full;
use winxmerge::table::{build_columns, build_table_rows, extract_table_grid, TableRowData};
use winxmerge::table_edit::{
    resize_table_column, restore_table_grid, table_cell_edit, table_copy_all, table_copy_to_side, table_diff_positions,
    table_resolve_to_base, blank_table_delimiter,
};

fn table(l: &str, r: &str) -> (Vec<TableRowData>, Vec<winxmerge::table::TableColumnInfo>, i32) {
    let res = compare_csv_full(l, r);
    let (cols, width) = build_columns(res.max_cols, 100);
    (build_table_rows(&res.left_grid, &res.right_grid, &res.cell_status, res.max_rows, res.max_cols, &cols), cols, width)
}

#[test]
fn copy_one_difference_row() {
    let (mut rows, _, _) = table("a,b\n1,2\n3,4\n", "a,b\n1,X\n3,Y\n");
    let (pos, cur) = table_diff_positions(&rows, 0);
    assert_eq!(pos, vec![1, 2]);
    assert_eq!(cur, 0);
    assert!(table_copy_to_side(&mut rows, &pos, 0, true));
    assert_eq!(extract_table_grid(&rows, 2)[1], vec!["1".to_string(), "2".to_string()]);
    assert_eq!(rows[1].row_status, 0);
    assert!(rows[1].right_cells.iter().all(|c| c.status == 0));
    let (pos, cur) = table_diff_positions(&rows, 1);
    assert_eq!(pos, vec![2]);
    assert_eq!(cur, 0);
    assert!(!table_copy_to_side(&mut rows, &pos, 1, true));
    assert!(table_copy_to_side(&mut rows, &pos, 0, false));
    assert_eq!(extract_table_grid(&rows, 0)[2], vec!["3".to_string(), "Y".to_string()]);
    let (pos, cur) = table_diff_positions(&rows, 0);
    assert!(pos.is_empty());
    assert_eq!(cur, -1);
}

#[test]
fn copy_all_rows() {
    let (mut rows, _, _) = table("a\nb\nc\n", "A\nb\nC\n");
    let (pos, _) = table_diff_positions(&rows, -1);
    table_copy_all(&mut rows, &pos, false);
    assert_eq!(extract_table_grid(&rows, 0), extract_table_grid(&rows, 2));
    assert_eq!(extract_table_grid(&rows, 0)[0], vec!["A".to_string()]);
}

#[test]
fn resolve_into_base() {
    let (mut rows, _, _) = table("k,v\n1,a\n", "k,w\n1,a\n");
    let (pos, _) = table_diff_positions(&rows, 0);
    assert_eq!(pos, vec![0]);
    assert!(table_resolve_to_base(&mut rows, &pos, 0, true));
    let base: Vec<&str> = rows[0].base_cells.iter().map(|c| c.text.as_str()).collect();
    assert_eq!(base, vec!["k", "v"]);
    let st: Vec<i32> = rows[0].right_cells.iter().map(|c| c.status).collect();
    assert_eq!(st, vec![0, 1]);
    assert_eq!(rows[0].row_status, 1);
    assert!(!table_resolve_to_base(&mut rows, &pos, 3, true));
}

#[test]
fn cell_edit_and_grid_restore() {
    let (mut rows, _, _) = table("a,b\n", "a,b\n");
    let before = extract_table_grid(&rows, 0);
    assert!(table_cell_edit(&mut rows, 0, 1, 0, "changed"));
    assert!(!table_cell_edit(&mut rows, 0, 5, 0, "x"));
    assert!(!table_cell_edit(&mut rows, 3, 0, 0, "x"));
    assert_eq!(extract_table_grid(&rows, 0)[0][1], "changed");
    restore_table_grid(&mut rows, &before, 0);
    assert_eq!(extract_table_grid(&rows, 0), before);
}

#[test]
fn resize_moves_later_columns() {
    let (mut rows, mut cols, width) = table("a,b,c\n", "a,b,c\n");
    assert_eq!(width, 300);
    let w = resize_table_column(&mut cols, &mut rows, width, 1, 150);
    assert_eq!(w, 350);
    let xs: Vec<i32> = cols.iter().map(|c| c.x_px).collect();
    assert_eq!(xs, vec![0, 100, 250]);
    assert_eq!(cols[1].width_px, 150);
    assert_eq!(rows[0].left_cells[2].col_x_px, 250);
    assert_eq!(rows[0].right_cells[1].col_width_px, 150);
    // Never narrower than the minimum.
    let w = resize_table_column(&mut cols, &mut rows, w, 0, 1);
    assert_eq!(cols[0].width_px, 30);
    assert_eq!(w, 280);
    // Unknown column: no change.
    assert_eq!(resize_table_column(&mut cols, &mut rows, w, 7, 500), 280);
}

#[test]
fn blank_table_is_ten_by_five_and_equal() {
    let (rows, cols, width) = winxmerge::table_edit::blank_table();
    assert_eq!(rows.len(), 10);
    assert_eq!(cols.len(), 5);
    assert_eq!(width, 500);
    assert_eq!(cols[4].name, "E");
    assert!(rows.iter().all(|r| r.left_cells.len() == 5 && r.right_cells.len() == 5 && r.row_status == 0));
    assert!(rows.iter().all(|r| r.left_cells.iter().all(|c| c.text.is_empty())));
    assert_eq!(rows[9].row_number, 10);
}

#[test]
fn blank_table_delimiter_bytes() {
    assert_eq!(blank_table_delimiter("TAB"), b'\t');
    assert_eq!(blank_table_delimiter(""), b',');
    assert_eq!(blank_table_delimiter(";"), b';');
    assert_eq!(blank_table_delimiter("|x"), b'|');
    assert_eq!(blank_table_delimiter("é"), "é".as_bytes()[0]);
    assert_eq!(blank_table_delimiter("€"), "€".as_bytes()[0]);
}
