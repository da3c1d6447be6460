//! Workbook comparison: every sheet of either workbook, cell by cell.
use vstd::prelude::*;
use calamine::Reader;
use crate::text::{str_to_string, views, file_extension, path_extension, lowercase, to_lowercase, str_eq};
use crate::csv::{cell, grid_view, col_name, max_nat};
use crate::names::{sorted_union, strictly_sorted, last_index, find_last, lemma_last_index};

pub use crate::csv::col_to_name;

verus! {

/// One differing cell of a workbook comparison.
#[derive(Debug, Clone)]
pub struct ExcelCellDiff {
    pub sheet: String,
    /// 1-based row
    pub row: usize,
    /// 1-based column
    pub col: usize,
    pub col_name: String,
    pub left_value: String,
    pub right_value: String,
    /// 0=identical, 1=different, 2=left_only (sheet only in left), 3=right_only
    pub status: i32,
}

/// The path's extension is xlsx, xls, xlsm or ods in any case.
pub open spec fn excel_named(path: Seq<char>) -> bool {
    path_extension(path) matches Some(e) && (lowercase(e) == "xlsx"@ || lowercase(e) == "xls"@
        || lowercase(e) == "xlsm"@ || lowercase(e) == "ods"@)
}

/// True if the path's extension is xlsx, xls, xlsm or ods in any case.
pub fn is_excel_path(path: &str) -> (b: bool)
    ensures
        b == excel_named(path@),
{
    match file_extension(path) {
        Some(e) => {
            let l = to_lowercase(e.as_str());
            str_eq(l.as_str(), "xlsx") || str_eq(l.as_str(), "xls") || str_eq(l.as_str(), "xlsm")
                || str_eq(l.as_str(), "ods")
        },
        None => false,
    }
}

/// A sheet's cells as text, row by row.
pub type Grid = Seq<Seq<Seq<char>>>;

/// One worksheet read from a workbook.
pub struct Sheet {
    pub name: String,
    pub rows: Vec<Vec<String>>,
}

pub open spec fn sheet_view(s: Sheet) -> (Seq<char>, Grid) {
    (s.name@, grid_view(s.rows@))
}

/// The worksheets that `calamine` reads from workbook bytes (any format its
/// `open_workbook_auto_from_rs` recognizes): in workbook order, each sheet
/// whose range it can read, with every cell as `Data`'s `Display` text; empty
/// when the bytes are no workbook it can open.
pub uninterp spec fn workbook_sheets(data: Seq<u8>) -> Seq<(Seq<char>, Grid)>;

/// Reads every worksheet of a workbook with `calamine`.
#[verifier::external_body]
fn read_workbook(data: &[u8]) -> (sheets: Vec<Sheet>)
    ensures
        sheets@.map_values(|s: Sheet| sheet_view(s)) == workbook_sheets(data@),
{
    let mut wb = match calamine::open_workbook_auto_from_rs(std::io::Cursor::new(data.to_vec())) {
        Ok(w) => w,
        Err(_) => return Vec::new(),
    };
    let mut sheets = Vec::new();
    for name in wb.sheet_names() {
        if let Ok(range) = wb.worksheet_range(&name) {
            let rows = range.rows().map(|row| row.iter().map(|c| c.to_string()).collect()).collect();
            sheets.push(Sheet { name, rows });
        }
    }
    sheets
}

pub open spec fn sheet_names(ws: Seq<(Seq<char>, Grid)>) -> Seq<Seq<char>> {
    ws.map_values(|p: (Seq<char>, Grid)| p.0)
}

/// The sheet of that name (the last one, should a name occur twice).
pub open spec fn sheet_named(ws: Seq<(Seq<char>, Grid)>, name: Seq<char>) -> Option<Grid> {
    match last_index(sheet_names(ws), name) {
        Some(k) => Some(ws[k].1),
        None => None,
    }
}

pub open spec fn opt_cell(g: Option<Grid>, r: int, c: int) -> Seq<char> {
    match g {
        Some(g) => cell(g, r, c),
        None => Seq::empty(),
    }
}

pub open spec fn opt_rows(g: Option<Grid>) -> nat {
    match g {
        Some(g) => g.len(),
        None => 0,
    }
}

pub open spec fn opt_row_len(g: Option<Grid>, r: int) -> nat {
    match g {
        Some(g) => if 0 <= r < g.len() { g[r].len() } else { 0 },
        None => 0,
    }
}

/// Status of a cell: 2 when only the left workbook has the sheet, 3 when
/// only the right one has it, else 0 for equal text and 1 for different.
pub open spec fn excel_status(lg: Option<Grid>, rg: Option<Grid>, r: int, c: int) -> i32 {
    if lg is Some && rg is None {
        2
    } else if lg is None && rg is Some {
        3
    } else if opt_cell(lg, r, c) == opt_cell(rg, r, c) {
        0
    } else {
        1
    }
}

/// A reported cell as plain values: sheet, 1-based row and column, column
/// name, left and right text, status.
pub type ExcelDiffView = (Seq<char>, nat, nat, Seq<char>, Seq<char>, Seq<char>, i32);

pub open spec fn excel_diff_view(d: ExcelCellDiff) -> ExcelDiffView {
    (d.sheet@, d.row as nat, d.col as nat, d.col_name@, d.left_value@, d.right_value@, d.status)
}

/// Cells where both sides are empty are skipped; identical cells too.
pub open spec fn excel_reported(lg: Option<Grid>, rg: Option<Grid>, r: int, c: int) -> bool {
    !(opt_cell(lg, r, c).len() == 0 && opt_cell(rg, r, c).len() == 0) && excel_status(lg, rg, r, c) != 0
}

pub open spec fn excel_entry(sheet: Seq<char>, lg: Option<Grid>, rg: Option<Grid>, r: int, c: int) -> ExcelDiffView {
    (sheet, (r + 1) as nat, (c + 1) as nat, col_name(c as nat), opt_cell(lg, r, c), opt_cell(rg, r, c), excel_status(lg, rg, r, c))
}

/// The reported cells among the first `n` of row `r`.
pub open spec fn excel_row_diffs(sheet: Seq<char>, lg: Option<Grid>, rg: Option<Grid>, r: int, n: int) -> Seq<ExcelDiffView>
    decreases n,
{
    if n <= 0 {
        Seq::empty()
    } else {
        excel_row_diffs(sheet, lg, rg, r, n - 1) + if excel_reported(lg, rg, r, n - 1) {
            seq![excel_entry(sheet, lg, rg, r, n - 1)]
        } else {
            Seq::empty()
        }
    }
}

/// The reported cells of the first `n` rows of a sheet, each row over the
/// width of its wider side.
pub open spec fn excel_sheet_diffs(sheet: Seq<char>, lg: Option<Grid>, rg: Option<Grid>, n: int) -> Seq<ExcelDiffView>
    decreases n,
{
    if n <= 0 {
        Seq::empty()
    } else {
        excel_sheet_diffs(sheet, lg, rg, n - 1) + excel_row_diffs(
            sheet,
            lg,
            rg,
            n - 1,
            max_nat(opt_row_len(lg, n - 1), opt_row_len(rg, n - 1)) as int,
        )
    }
}

/// The reported cells of the first `n` sheet names, sheet by sheet.
pub open spec fn excel_diffs(names: Seq<Seq<char>>, left: Seq<(Seq<char>, Grid)>, right: Seq<(Seq<char>, Grid)>, n: int) -> Seq<ExcelDiffView>
    decreases n,
{
    if n <= 0 {
        Seq::empty()
    } else {
        let s = names[n - 1];
        let lg = sheet_named(left, s);
        let rg = sheet_named(right, s);
        excel_diffs(names, left, right, n - 1) + excel_sheet_diffs(s, lg, rg, max_nat(opt_rows(lg), opt_rows(rg)) as int)
    }
}

proof fn lemma_row_lists_cell(sheet: Seq<char>, lg: Option<Grid>, rg: Option<Grid>, r: int, c: int, n: int)
    requires
        0 <= c < n,
        opt_cell(lg, r, c) != opt_cell(rg, r, c),
    ensures
        excel_row_diffs(sheet, lg, rg, r, n).contains(excel_entry(sheet, lg, rg, r, c)),
    decreases n,
{
    let prev = excel_row_diffs(sheet, lg, rg, r, n - 1);
    if c < n - 1 {
        lemma_row_lists_cell(sheet, lg, rg, r, c, n - 1);
        let k = choose|k: int| 0 <= k < prev.len() && prev[k] == excel_entry(sheet, lg, rg, r, c);
        let tail = if excel_reported(lg, rg, r, n - 1) { seq![excel_entry(sheet, lg, rg, r, n - 1)] } else { Seq::empty() };
        assert((prev + tail)[k] == prev[k]);
    } else {
        if opt_cell(lg, r, c).len() == 0 && opt_cell(rg, r, c).len() == 0 {
            assert(opt_cell(lg, r, c) =~= opt_cell(rg, r, c));
        }
        assert(excel_status(lg, rg, r, c) != 0);
        assert(excel_reported(lg, rg, r, c));
        let all = prev + seq![excel_entry(sheet, lg, rg, r, c)];
        assert(all[prev.len() as int] == excel_entry(sheet, lg, rg, r, c));
    }
}

proof fn lemma_sheet_lists_cell(sheet: Seq<char>, lg: Option<Grid>, rg: Option<Grid>, r: int, c: int, n: int)
    requires
        0 <= r < n,
        0 <= c < max_nat(opt_row_len(lg, r), opt_row_len(rg, r)),
        opt_cell(lg, r, c) != opt_cell(rg, r, c),
    ensures
        excel_sheet_diffs(sheet, lg, rg, n).contains(excel_entry(sheet, lg, rg, r, c)),
    decreases n,
{
    let prev = excel_sheet_diffs(sheet, lg, rg, n - 1);
    let row = excel_row_diffs(sheet, lg, rg, n - 1, max_nat(opt_row_len(lg, n - 1), opt_row_len(rg, n - 1)) as int);
    if r < n - 1 {
        lemma_sheet_lists_cell(sheet, lg, rg, r, c, n - 1);
        let k = choose|k: int| 0 <= k < prev.len() && prev[k] == excel_entry(sheet, lg, rg, r, c);
        assert((prev + row)[k] == prev[k]);
    } else {
        lemma_row_lists_cell(sheet, lg, rg, r, c, max_nat(opt_row_len(lg, r), opt_row_len(rg, r)) as int);
        let k = choose|k: int| 0 <= k < row.len() && row[k] == excel_entry(sheet, lg, rg, r, c);
        assert((prev + row)[prev.len() + k] == row[k]);
    }
}

/// Every changed cell of a sheet is listed: for a cell within the sheet (a
/// row of either side, a column within the wider of the two rows) whose left
/// and right texts differ, the sheet's diffs hold the entry with that sheet,
/// the 1-based row and column, the column's name, both texts and a non-zero
/// status (1 when both workbooks have the sheet, 2 or 3 when only the left or
/// only the right one has it). A cell cleared on one side or filled on one
/// side is such a cell.
pub proof fn lemma_changed_cells_listed(sheet: Seq<char>, lg: Option<Grid>, rg: Option<Grid>, r: int, c: int)
    requires
        0 <= r < max_nat(opt_rows(lg), opt_rows(rg)),
        0 <= c < max_nat(opt_row_len(lg, r), opt_row_len(rg, r)),
        opt_cell(lg, r, c) != opt_cell(rg, r, c),
    ensures
        excel_sheet_diffs(sheet, lg, rg, max_nat(opt_rows(lg), opt_rows(rg)) as int).contains(
            (sheet, (r + 1) as nat, (c + 1) as nat, col_name(c as nat), opt_cell(lg, r, c), opt_cell(rg, r, c),
            if lg is Some && rg is Some { 1i32 } else if lg is Some { 2i32 } else { 3i32 })),
{
    lemma_sheet_lists_cell(sheet, lg, rg, r, c, max_nat(opt_rows(lg), opt_rows(rg)) as int);
    assert(!(lg is None && rg is None));
}

proof fn lemma_row_lists_only_changed(sheet: Seq<char>, lg: Option<Grid>, rg: Option<Grid>, r: int, n: int)
    ensures
        forall|i: int| 0 <= i < excel_row_diffs(sheet, lg, rg, r, n).len() ==> {
            let x = #[trigger] excel_row_diffs(sheet, lg, rg, r, n)[i];
            &&& x.0 == sheet
            &&& x.1 == r + 1
            &&& x.4 != x.5
            &&& x.6 != 0
        },
    decreases n,
{
    if n > 0 {
        lemma_row_lists_only_changed(sheet, lg, rg, r, n - 1);
        let prev = excel_row_diffs(sheet, lg, rg, r, n - 1);
        let c = n - 1;
        if excel_reported(lg, rg, r, c) {
            let all = prev + seq![excel_entry(sheet, lg, rg, r, c)];
            if opt_cell(lg, r, c) == opt_cell(rg, r, c) {
                assert(opt_cell(lg, r, c).len() > 0);
                assert(!(lg is Some && rg is None)) by {
                    if lg is Some && rg is None {
                        assert(opt_cell(rg, r, c) == Seq::<char>::empty());
                    }
                }
                assert(!(lg is None && rg is Some)) by {
                    if lg is None && rg is Some {
                        assert(opt_cell(lg, r, c) == Seq::<char>::empty());
                    }
                }
            }
            assert forall|i: int| 0 <= i < all.len() implies ({
                let x = #[trigger] all[i];
                &&& x.0 == sheet
                &&& x.1 == r + 1
                &&& x.4 != x.5
                &&& x.6 != 0
            }) by {
                if i < prev.len() {
                    assert(all[i] == prev[i]);
                }
            }
        } else {
            assert(excel_row_diffs(sheet, lg, rg, r, n) =~= prev);
        }
    }
}

proof fn lemma_sheet_lists_only_changed(sheet: Seq<char>, lg: Option<Grid>, rg: Option<Grid>, n: int)
    ensures
        forall|i: int| 0 <= i < excel_sheet_diffs(sheet, lg, rg, n).len() ==> {
            let x = #[trigger] excel_sheet_diffs(sheet, lg, rg, n)[i];
            &&& x.0 == sheet
            &&& x.4 != x.5
            &&& x.6 != 0
        },
    decreases n,
{
    if n > 0 {
        lemma_sheet_lists_only_changed(sheet, lg, rg, n - 1);
        let prev = excel_sheet_diffs(sheet, lg, rg, n - 1);
        let w = max_nat(opt_row_len(lg, n - 1), opt_row_len(rg, n - 1)) as int;
        let row = excel_row_diffs(sheet, lg, rg, n - 1, w);
        lemma_row_lists_only_changed(sheet, lg, rg, n - 1, w);
        assert forall|i: int| 0 <= i < (prev + row).len() implies ({
            let x = #[trigger] (prev + row)[i];
            &&& x.0 == sheet
            &&& x.4 != x.5
            &&& x.6 != 0
        }) by {
            if i < prev.len() {
                assert((prev + row)[i] == prev[i]);
            } else {
                assert((prev + row)[i] == row[i - prev.len()]);
            }
        }
    }
}

/// Only changed cells are listed: every entry of a sheet's diffs names that
/// sheet, has a non-zero status, and shows two different texts.
pub proof fn lemma_only_changed_cells_listed(sheet: Seq<char>, lg: Option<Grid>, rg: Option<Grid>)
    ensures
        forall|i: int| 0 <= i < excel_sheet_diffs(sheet, lg, rg, max_nat(opt_rows(lg), opt_rows(rg)) as int).len() ==> {
            let x = #[trigger] excel_sheet_diffs(sheet, lg, rg, max_nat(opt_rows(lg), opt_rows(rg)) as int)[i];
            &&& x.0 == sheet
            &&& x.4 != x.5
            &&& x.6 != 0
        },
{
    lemma_sheet_lists_only_changed(sheet, lg, rg, max_nat(opt_rows(lg), opt_rows(rg)) as int);
}

proof fn lemma_diffs_hold_sheet(names: Seq<Seq<char>>, left: Seq<(Seq<char>, Grid)>, right: Seq<(Seq<char>, Grid)>, n: int, k: int, x: ExcelDiffView)
    requires
        0 <= k < n <= names.len(),
        excel_sheet_diffs(names[k], sheet_named(left, names[k]), sheet_named(right, names[k]), max_nat(
            opt_rows(sheet_named(left, names[k])),
            opt_rows(sheet_named(right, names[k])),
        ) as int).contains(x),
    ensures
        excel_diffs(names, left, right, n).contains(x),
    decreases n,
{
    let s = names[n - 1];
    let prev = excel_diffs(names, left, right, n - 1);
    let cur = excel_sheet_diffs(s, sheet_named(left, s), sheet_named(right, s), max_nat(
        opt_rows(sheet_named(left, s)),
        opt_rows(sheet_named(right, s)),
    ) as int);
    if k < n - 1 {
        lemma_diffs_hold_sheet(names, left, right, n - 1, k, x);
        let i = choose|i: int| 0 <= i < prev.len() && prev[i] == x;
        assert((prev + cur)[i] == prev[i]);
    } else {
        let i = choose|i: int| 0 <= i < cur.len() && cur[i] == x;
        assert((prev + cur)[prev.len() + i] == cur[i]);
    }
}

/// The same over a whole comparison: for each compared sheet name, every
/// changed cell of that sheet is among the listed diffs (see
/// `lemma_changed_cells_listed`).
pub proof fn lemma_workbook_changed_cells_listed(
    names: Seq<Seq<char>>,
    left: Seq<(Seq<char>, Grid)>,
    right: Seq<(Seq<char>, Grid)>,
    k: int,
    r: int,
    c: int,
)
    requires
        0 <= k < names.len(),
        0 <= r < max_nat(opt_rows(sheet_named(left, names[k])), opt_rows(sheet_named(right, names[k]))),
        0 <= c < max_nat(opt_row_len(sheet_named(left, names[k]), r), opt_row_len(sheet_named(right, names[k]), r)),
        opt_cell(sheet_named(left, names[k]), r, c) != opt_cell(sheet_named(right, names[k]), r, c),
    ensures
        excel_diffs(names, left, right, names.len() as int).contains(
            (names[k], (r + 1) as nat, (c + 1) as nat, col_name(c as nat), opt_cell(sheet_named(left, names[k]), r, c),
            opt_cell(sheet_named(right, names[k]), r, c), if sheet_named(left, names[k]) is Some && sheet_named(right,
            names[k]) is Some { 1i32 } else if sheet_named(left, names[k]) is Some { 2i32 } else { 3i32 })),
{
    let lg = sheet_named(left, names[k]);
    let rg = sheet_named(right, names[k]);
    lemma_changed_cells_listed(names[k], lg, rg, r, c);
    lemma_diffs_hold_sheet(names, left, right, names.len() as int, k,
        (names[k], (r + 1) as nat, (c + 1) as nat, col_name(c as nat), opt_cell(lg, r, c), opt_cell(rg, r, c),
        if lg is Some && rg is Some { 1i32 } else if lg is Some { 2i32 } else { 3i32 }));
}

fn names_of(sheets: &Vec<Sheet>) -> (v: Vec<String>)
    ensures
        views(v@) == sheet_names(sheets@.map_values(|s: Sheet| sheet_view(s))),
{
    let ghost ws = sheets@.map_values(|s: Sheet| sheet_view(s));
    let mut v: Vec<String> = Vec::new();
    let mut i: usize = 0;
    while i < sheets.len()
        invariant
            i <= sheets@.len(),
            ws == sheets@.map_values(|s: Sheet| sheet_view(s)),
            views(v@) == sheet_names(ws).take(i as int),
        decreases sheets@.len() - i,
    {
        let ghost before = v@;
        v.push(str_to_string(sheets[i].name.as_str()));
        assert(views(v@) =~= views(before).push(sheets@[i as int].name@));
        assert(sheet_names(ws).take(i + 1) =~= sheet_names(ws).take(i as int).push(sheets@[i as int].name@));
        i = i + 1;
    }
    assert(sheet_names(ws).take(sheets@.len() as int) =~= sheet_names(ws));
    v
}

pub open spec fn opt_grid(o: Option<&Vec<Vec<String>>>) -> Option<Grid> {
    match o {
        Some(g) => Some(grid_view(g@)),
        None => None,
    }
}

fn grid_cell(g: Option<&Vec<Vec<String>>>, r: usize, c: usize) -> (s: String)
    ensures
        s@ == opt_cell(opt_grid(g), r as int, c as int),
{
    match g {
        Some(rows) => {
            if r < rows.len() && c < rows[r].len() {
                assert(grid_view(rows@)[r as int][c as int] == rows@[r as int]@[c as int]@);
                str_to_string(rows[r][c].as_str())
            } else {
                let s = String::new();
                assert(s@ =~= Seq::<char>::empty());
                s
            }
        },
        None => {
            let s = String::new();
            assert(s@ =~= Seq::<char>::empty());
            s
        },
    }
}

fn grid_rows(g: Option<&Vec<Vec<String>>>) -> (n: usize)
    ensures
        n == opt_rows(opt_grid(g)),
{
    match g {
        Some(rows) => rows.len(),
        None => 0,
    }
}

fn grid_row_len(g: Option<&Vec<Vec<String>>>, r: usize) -> (n: usize)
    ensures
        n == opt_row_len(opt_grid(g), r as int),
{
    match g {
        Some(rows) => if r < rows.len() { rows[r].len() } else { 0 },
        None => 0,
    }
}

/// Appends the reported cells of one sheet.
fn push_sheet_diffs(
    diffs: &mut Vec<ExcelCellDiff>,
    sheet: &str,
    lg: Option<&Vec<Vec<String>>>,
    rg: Option<&Vec<Vec<String>>>,
)
    ensures
        final(diffs)@.map_values(|d: ExcelCellDiff| excel_diff_view(d)) == old(diffs)@.map_values(
            |d: ExcelCellDiff| excel_diff_view(d),
        ) + excel_sheet_diffs(sheet@, opt_grid(lg), opt_grid(rg), max_nat(opt_rows(opt_grid(lg)), opt_rows(opt_grid(rg))) as int),
{
    let ghost l = opt_grid(lg);
    let ghost g = opt_grid(rg);
    let ghost start = diffs@.map_values(|d: ExcelCellDiff| excel_diff_view(d));
    let lr = grid_rows(lg);
    let rr = grid_rows(rg);
    let max_rows = if lr > rr { lr } else { rr };
    let mut r: usize = 0;
    while r < max_rows
        invariant
            r <= max_rows,
            l == opt_grid(lg),
            g == opt_grid(rg),
            diffs@.map_values(|d: ExcelCellDiff| excel_diff_view(d)) == start + excel_sheet_diffs(sheet@, l, g, r as int),
        decreases max_rows - r,
    {
        let wl = grid_row_len(lg, r);
        let wr = grid_row_len(rg, r);
        let max_cols = if wl > wr { wl } else { wr };
        let ghost row_start = diffs@.map_values(|d: ExcelCellDiff| excel_diff_view(d));
        let mut c: usize = 0;
        while c < max_cols
            invariant
                c <= max_cols,
                r < max_rows,
                l == opt_grid(lg),
                g == opt_grid(rg),
                diffs@.map_values(|d: ExcelCellDiff| excel_diff_view(d)) == row_start + excel_row_diffs(sheet@, l, g, r as int, c as int),
            decreases max_cols - c,
        {
            let lv = grid_cell(lg, r, c);
            let rv = grid_cell(rg, r, c);
            let ghost prev = diffs@;
            if !(lv.as_str().is_empty() && rv.as_str().is_empty()) {
                let status: i32 = if lg.is_some() && rg.is_none() {
                    2
                } else if lg.is_none() && rg.is_some() {
                    3
                } else if str_eq(lv.as_str(), rv.as_str()) {
                    0
                } else {
                    1
                };
                if status != 0 {
                    let d = ExcelCellDiff {
                        sheet: str_to_string(sheet),
                        row: r + 1,
                        col: c + 1,
                        col_name: col_to_name(c),
                        left_value: lv,
                        right_value: rv,
                        status,
                    };
                    diffs.push(d);
                    assert(diffs@.map_values(|d: ExcelCellDiff| excel_diff_view(d)) =~= prev.map_values(
                        |d: ExcelCellDiff| excel_diff_view(d),
                    ).push(excel_diff_view(d)));
                    assert(excel_diff_view(d) == excel_entry(sheet@, l, g, r as int, c as int));
                    assert(excel_row_diffs(sheet@, l, g, r as int, c + 1) =~= excel_row_diffs(sheet@, l, g, r as int, c as int).push(
                        excel_entry(sheet@, l, g, r as int, c as int),
                    ));
                } else {
                    assert(excel_row_diffs(sheet@, l, g, r as int, c + 1) =~= excel_row_diffs(sheet@, l, g, r as int, c as int));
                }
            } else {
                assert(excel_row_diffs(sheet@, l, g, r as int, c + 1) =~= excel_row_diffs(sheet@, l, g, r as int, c as int));
            }
            assert(row_start + excel_row_diffs(sheet@, l, g, r as int, c + 1) =~= diffs@.map_values(
                |d: ExcelCellDiff| excel_diff_view(d),
            ));
            c = c + 1;
        }
        assert(start + excel_sheet_diffs(sheet@, l, g, r + 1) =~= diffs@.map_values(|d: ExcelCellDiff| excel_diff_view(d)));
        r = r + 1;
    }
}

/// Compares two workbooks' bytes: for every sheet name of either, in order,
/// the non-identical, not-both-empty cells, row by row.
pub fn compare_excel(left_data: &[u8], right_data: &[u8]) -> (diffs: Vec<ExcelCellDiff>)
    ensures
        exists|names: Seq<Seq<char>>| {
            &&& #[trigger] strictly_sorted(names)
            &&& forall|x: Seq<char>| names.contains(x) <==> (sheet_names(workbook_sheets(left_data@)).contains(x)
                || sheet_names(workbook_sheets(right_data@)).contains(x))
            &&& diffs@.map_values(|d: ExcelCellDiff| excel_diff_view(d)) == excel_diffs(
                names,
                workbook_sheets(left_data@),
                workbook_sheets(right_data@),
                names.len() as int,
            )
        },
{
    let left = read_workbook(left_data);
    let right = read_workbook(right_data);
    let ghost lw = left@.map_values(|s: Sheet| sheet_view(s));
    let ghost rw = right@.map_values(|s: Sheet| sheet_view(s));
    let ln = names_of(&left);
    let rn = names_of(&right);
    let all = sorted_union(&ln, &rn);
    let ghost names = views(all@);
    let mut diffs: Vec<ExcelCellDiff> = Vec::new();
    let mut k: usize = 0;
    while k < all.len()
        invariant
            k <= all@.len(),
            names == views(all@),
            lw == left@.map_values(|s: Sheet| sheet_view(s)),
            rw == right@.map_values(|s: Sheet| sheet_view(s)),
            views(ln@) == sheet_names(lw),
            views(rn@) == sheet_names(rw),
            diffs@.map_values(|d: ExcelCellDiff| excel_diff_view(d)) == excel_diffs(names, lw, rw, k as int),
        decreases all@.len() - k,
    {
        let name = all[k].as_str();
        assert(names[k as int] == name@);
        let li = find_last(&ln, name);
        let ri = find_last(&rn, name);
        proof {
            lemma_last_index(sheet_names(lw), name@);
            lemma_last_index(sheet_names(rw), name@);
        }
        let lg: Option<&Vec<Vec<String>>> = match li { Some(i) => Some(&left[i].rows), None => None };
        let rg: Option<&Vec<Vec<String>>> = match ri { Some(i) => Some(&right[i].rows), None => None };
        assert(opt_grid(lg) == sheet_named(lw, name@));
        assert(opt_grid(rg) == sheet_named(rw, name@));
        push_sheet_diffs(&mut diffs, name, lg, rg);
        k = k + 1;
    }
    diffs
}

} // verus!
