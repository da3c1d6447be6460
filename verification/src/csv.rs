//! CSV / TSV tables: parsing, writing and cell-by-cell comparison.
use vstd::prelude::*;
use vstd::string::StringSliceAdditionalSpecFns;
use crate::text::{
    str_chars, text_lines, split_lines, views, push_char, file_extension, path_extension,
    to_lowercase, lowercase,
};

verus! {

/// One differing cell of a two-way table comparison.
#[derive(Debug, Clone)]
pub struct CsvCellDiff {
    /// 1-based row
    pub row: usize,
    /// 1-based column
    pub col: usize,
    pub col_name: String,
    pub left_value: String,
    pub right_value: String,
    /// 0=identical, 1=different, 2=left_only, 3=right_only
    pub status: i32,
}

/// The path's extension is `csv` or `tsv` in any case.
pub open spec fn csv_named(path: Seq<char>) -> bool {
    path_extension(path) matches Some(e) && (lowercase(e) == "csv"@ || lowercase(e) == "tsv"@)
}

/// True if the path's extension is `csv` or `tsv` in any case.
pub fn is_csv_path(path: &str) -> (b: bool)
    ensures
        b == csv_named(path@),
{
    match file_extension(path) {
        Some(e) => {
            let l = to_lowercase(e.as_str());
            crate::text::str_eq(l.as_str(), "csv") || crate::text::str_eq(l.as_str(), "tsv")
        },
        None => false,
    }
}

/// How many times `c` occurs in `s`.
pub open spec fn count_char(s: Seq<char>, c: char) -> nat
    decreases s.len(),
{
    if s.len() == 0 {
        0
    } else {
        count_char(s.drop_last(), c) + if s.last() == c { 1nat } else { 0nat }
    }
}

/// The first line of a text (empty when it has none).
pub open spec fn first_line(text: Seq<char>) -> Seq<char> {
    if text_lines(text).len() > 0 { text_lines(text)[0] } else { Seq::empty() }
}

/// Tab when the first line has more tabs than commas, else comma.
pub open spec fn delimiter_of(text: Seq<char>) -> u8 {
    if count_char(first_line(text), '\t') > count_char(first_line(text), ',') { 9u8 } else { 44u8 }
}

fn count_in(v: &Vec<char>, c: char) -> (n: usize)
    ensures
        n == count_char(v@, c),
{
    let mut n: usize = 0;
    let mut i: usize = 0;
    while i < v.len()
        invariant
            i <= v@.len(),
            n == count_char(v@.take(i as int), c),
            n <= i,
        decreases v@.len() - i,
    {
        assert(v@.take(i + 1).drop_last() =~= v@.take(i as int));
        if v[i] == c {
            n = n + 1;
        }
        i = i + 1;
    }
    assert(v@.take(v@.len() as int) =~= v@);
    n
}

/// Guesses the delimiter from the first line: tab if it has more tabs than commas.
fn detect_delimiter(text: &str) -> (d: u8)
    ensures
        d == delimiter_of(text@),
{
    let lines = split_lines(text);
    let first: Vec<char> = if lines.len() > 0 { str_chars(lines[0].as_str()) } else { Vec::new() };
    assert(first@ == first_line(text@));
    let commas = count_in(&first, ',');
    let tabs = count_in(&first, '\t');
    if tabs > commas { 9u8 } else { 44u8 }
}

/// The spreadsheet name of a 0-based column: A..Z, AA..AZ, BA, ...
pub open spec fn col_name(col: nat) -> Seq<char>
    decreases col,
{
    if col < 26 {
        seq![(65 + col) as char]
    } else {
        col_name((col / 26 - 1) as nat).push((65 + col % 26) as char)
    }
}

/// Converts a 0-based column index to its spreadsheet name (A, B, ... Z, AA, AB, ...).
pub fn col_to_name(col: usize) -> (name: String)
    ensures
        name@ == col_name(col as nat),
    decreases col,
{
    let c = (65u8 + (col % 26) as u8) as char;
    if col < 26 {
        let mut name = String::new();
        push_char(&mut name, c);
        assert(name@ =~= seq![c]);
        name
    } else {
        let mut name = col_to_name(col / 26 - 1);
        push_char(&mut name, c);
        name
    }
}

/// Parser state: finished rows, the current row, the current field, and
/// whether a quoted section is open.
pub struct CsvState {
    pub rows: Seq<Seq<Seq<char>>>,
    pub row: Seq<Seq<char>>,
    pub field: Seq<char>,
    pub in_quotes: bool,
}

/// The rows after the last field and row are flushed (when not both empty).
pub open spec fn csv_flush(st: CsvState) -> Seq<Seq<Seq<char>>> {
    if st.field.len() > 0 || st.row.len() > 0 {
        st.rows.push(st.row.push(st.field))
    } else {
        st.rows
    }
}

/// Reads the characters `cs` from state `st`. Inside quotes, `""` is a
/// quote and a single `"` closes; outside, `"` opens quotes, the delimiter
/// (the character with the delimiter's code) ends a field, `\n` ends a row
/// and `\r` is skipped. Every other character is taken as it is.
pub open spec fn csv_from(cs: Seq<char>, d: u8, st: CsvState) -> Seq<Seq<Seq<char>>>
    decreases cs.len(),
{
    if cs.len() == 0 {
        csv_flush(st)
    } else {
        let c = cs[0];
        let rest = cs.drop_first();
        if st.in_quotes {
            if c == '"' {
                if rest.len() > 0 && rest[0] == '"' {
                    csv_from(rest.drop_first(), d, CsvState { field: st.field.push('"'), ..st })
                } else {
                    csv_from(rest, d, CsvState { in_quotes: false, ..st })
                }
            } else {
                csv_from(rest, d, CsvState { field: st.field.push(c), ..st })
            }
        } else if c == '"' {
            csv_from(rest, d, CsvState { in_quotes: true, ..st })
        } else if c as u32 == d as u32 {
            csv_from(rest, d, CsvState { row: st.row.push(st.field), field: Seq::empty(), ..st })
        } else if c == '\n' {
            csv_from(rest, d, CsvState { rows: st.rows.push(st.row.push(st.field)), row: Seq::empty(), field: Seq::empty(), ..st })
        } else if c == '\r' {
            csv_from(rest, d, st)
        } else {
            csv_from(rest, d, CsvState { field: st.field.push(c), ..st })
        }
    }
}

/// The table read from the characters of a text.
pub open spec fn csv_table(text: Seq<char>, d: u8) -> Seq<Seq<Seq<char>>> {
    csv_from(text, d, CsvState { rows: Seq::empty(), row: Seq::empty(), field: Seq::empty(), in_quotes: false })
}

/// The cell views of a grid.
pub open spec fn grid_view(g: Seq<Vec<String>>) -> Seq<Seq<Seq<char>>> {
    g.map_values(|r: Vec<String>| views(r@))
}

/// Parses CSV/TSV text into rows of fields; quoted fields may hold the
/// delimiter, line breaks and doubled quotes.
pub fn parse_csv(text: &str, delimiter: u8) -> (rows: Vec<Vec<String>>)
    ensures
        grid_view(rows@) == csv_table(text@, delimiter),
{
    let cs = str_chars(text);
    let mut rows: Vec<Vec<String>> = Vec::new();
    let mut row: Vec<String> = Vec::new();
    let mut field = String::new();
    let mut in_quotes = false;
    let mut i: usize = 0;
    assert(cs@.skip(0) =~= cs@);
    assert(grid_view(rows@) =~= Seq::<Seq<Seq<char>>>::empty());
    assert(views(row@) =~= Seq::<Seq<char>>::empty());
    assert(field@ =~= Seq::<char>::empty());
    while i < cs.len()
        invariant
            i <= cs@.len(),
            cs@ == text@,
            csv_table(cs@, delimiter) == csv_from(cs@.skip(i as int), delimiter,
                CsvState { rows: grid_view(rows@), row: views(row@), field: field@, in_quotes }),
        decreases cs@.len() - i,
    {
        let c = cs[i];
        let ghost rest = cs@.skip(i as int);
        assert(rest[0] == c);
        assert(rest.drop_first() =~= cs@.skip(i + 1));
        if in_quotes {
            if c == '"' {
                if i + 1 < cs.len() && cs[i + 1] == '"' {
                    assert(rest.drop_first()[0] == cs@[i + 1]);
                    assert(rest.drop_first().drop_first() =~= cs@.skip(i + 2));
                    push_char(&mut field, '"');
                    i = i + 2;
                } else {
                    in_quotes = false;
                    i = i + 1;
                }
            } else {
                push_char(&mut field, c);
                i = i + 1;
            }
        } else if c == '"' {
            in_quotes = true;
            i = i + 1;
        } else if c as u32 == delimiter as u32 {
            let ghost old_row = row@;
            row.push(field);
            field = String::new();
            assert(views(row@) =~= views(old_row).push(row@.last()@));
            i = i + 1;
        } else if c == '\n' {
            let ghost old_row = row@;
            let ghost old_rows = rows@;
            row.push(field);
            assert(views(row@) =~= views(old_row).push(row@.last()@));
            rows.push(row);
            assert(grid_view(rows@) =~= grid_view(old_rows).push(views(rows@.last()@)));
            row = Vec::new();
            field = String::new();
            assert(views(row@) =~= Seq::<Seq<char>>::empty());
            i = i + 1;
        } else if c == '\r' {
            i = i + 1;
        } else {
            push_char(&mut field, c);
            i = i + 1;
        }
    }
    assert(cs@.skip(i as int) =~= Seq::<char>::empty());
    if !field.as_str().is_empty() || row.len() > 0 {
        let ghost old_row = row@;
        let ghost old_rows = rows@;
        let ghost fv = field@;
        row.push(field);
        assert(views(row@) =~= views(old_row).push(fv));
        rows.push(row);
        assert(grid_view(rows@) =~= grid_view(old_rows).push(views(rows@.last()@)));
    }
    rows
}

} // verus!

verus! {

/// Cell `(r, c)` of a grid, empty when the grid has no such cell.
pub open spec fn cell(g: Seq<Seq<Seq<char>>>, r: int, c: int) -> Seq<char> {
    if 0 <= r < g.len() && 0 <= c < g[r].len() {
        g[r][c]
    } else {
        Seq::empty()
    }
}

/// The length of the longest row (0 for no rows).
pub open spec fn max_width(g: Seq<Seq<Seq<char>>>) -> nat
    decreases g.len(),
{
    if g.len() == 0 {
        0
    } else {
        let w = max_width(g.drop_last());
        if g.last().len() > w { g.last().len() } else { w }
    }
}

pub open spec fn max_nat(a: nat, b: nat) -> nat {
    if a > b { a } else { b }
}

/// Two-way status of a cell: 2 when only the left table has the row, 3 when
/// only the right one has it, else 0 for equal text and 1 for different.
pub open spec fn status2(lg: Seq<Seq<Seq<char>>>, rg: Seq<Seq<Seq<char>>>, r: int, c: int) -> i32 {
    let has_l = r < lg.len();
    let has_r = r < rg.len();
    if has_l && !has_r {
        2
    } else if !has_l && has_r {
        3
    } else if cell(lg, r, c) == cell(rg, r, c) {
        0
    } else {
        1
    }
}

/// How many entries are not 0.
pub open spec fn count_nonzero(st: Seq<Seq<i32>>) -> nat
    decreases st.len(),
{
    if st.len() == 0 {
        0
    } else {
        count_nonzero(st.drop_last()) + count_nonzero_row(st.last())
    }
}

pub open spec fn count_nonzero_row(row: Seq<i32>) -> nat
    decreases row.len(),
{
    if row.len() == 0 {
        0
    } else {
        count_nonzero_row(row.drop_last()) + if row.last() != 0 { 1nat } else { 0nat }
    }
}

/// How many entries are `v`.
pub open spec fn count_value(st: Seq<Seq<i32>>, v: i32) -> nat
    decreases st.len(),
{
    if st.len() == 0 {
        0
    } else {
        count_value(st.drop_last(), v) + count_value_row(st.last(), v)
    }
}

pub open spec fn count_value_row(row: Seq<i32>, v: i32) -> nat
    decreases row.len(),
{
    if row.len() == 0 {
        0
    } else {
        count_value_row(row.drop_last(), v) + if row.last() == v { 1nat } else { 0nat }
    }
}

/// The statuses as plain rows.
pub open spec fn status_view(st: Seq<Vec<i32>>) -> Seq<Seq<i32>> {
    st.map_values(|r: Vec<i32>| r@)
}

/// Full comparison result including both grids and per-cell status.
#[derive(Debug, Clone)]
pub struct CsvTableResult {
    pub left_grid: Vec<Vec<String>>,
    pub right_grid: Vec<Vec<String>>,
    pub max_rows: usize,
    pub max_cols: usize,
    /// cell_status[row][col] = 0(identical)/1(different)/2(left-only)/3(right-only)
    pub cell_status: Vec<Vec<i32>>,
    pub diff_count: usize,
}

fn grid_width(g: &Vec<Vec<String>>) -> (w: usize)
    ensures
        w == max_width(grid_view(g@)),
{
    let mut w: usize = 0;
    let mut i: usize = 0;
    while i < g.len()
        invariant
            i <= g@.len(),
            w == max_width(grid_view(g@).take(i as int)),
        decreases g@.len() - i,
    {
        assert(grid_view(g@).take(i + 1).drop_last() =~= grid_view(g@).take(i as int));
        assert(grid_view(g@).take(i + 1).last() == views(g@[i as int]@));
        if g[i].len() > w {
            w = g[i].len();
        }
        i = i + 1;
    }
    assert(grid_view(g@).take(g@.len() as int) =~= grid_view(g@));
    w
}

/// Is cell `(r, c)` of `a` the same text as cell `(r, c)` of `b`?
fn same_cell(a: &Vec<Vec<String>>, b: &Vec<Vec<String>>, r: usize, c: usize) -> (eq: bool)
    ensures
        eq == (cell(grid_view(a@), r as int, c as int) == cell(grid_view(b@), r as int, c as int)),
{
    let ha = r < a.len() && c < a[r].len();
    let hb = r < b.len() && c < b[r].len();
    if ha {
        assert(grid_view(a@)[r as int][c as int] == a@[r as int]@[c as int]@);
    }
    if hb {
        assert(grid_view(b@)[r as int][c as int] == b@[r as int]@[c as int]@);
    }
    if ha && hb {
        crate::text::str_eq(a[r][c].as_str(), b[r][c].as_str())
    } else if ha {
        let e = a[r][c].as_str().is_empty();
        assert(e ==> a@[r as int]@[c as int]@ =~= Seq::<char>::empty());
        e
    } else if hb {
        let e = b[r][c].as_str().is_empty();
        assert(e ==> b@[r as int]@[c as int]@ =~= Seq::<char>::empty());
        e
    } else {
        true
    }
}

/// Grids of the sizes given fit in memory as a table of statuses.
pub open spec fn table_fits(rows: nat, cols: nat) -> bool {
    rows * cols <= usize::MAX
}

/// Compares two CSV/TSV texts (delimiter guessed from the left text) and
/// returns both grids with the status of every cell.
pub fn compare_csv_full(left_text: &str, right_text: &str) -> (res: CsvTableResult)
    requires
        table_fits(
            max_nat(csv_table(left_text@, delimiter_of(left_text@)).len(), csv_table(right_text@, delimiter_of(left_text@)).len()),
            max_nat(max_width(csv_table(left_text@, delimiter_of(left_text@))), max_width(csv_table(right_text@, delimiter_of(left_text@))))),
    ensures
        grid_view(res.left_grid@) == csv_table(left_text@, delimiter_of(left_text@)),
        grid_view(res.right_grid@) == csv_table(right_text@, delimiter_of(left_text@)),
        res.max_rows == max_nat(res.left_grid@.len(), res.right_grid@.len()),
        res.max_cols == max_nat(max_width(grid_view(res.left_grid@)), max_width(grid_view(res.right_grid@))),
        res.cell_status@.len() == res.max_rows,
        forall|r: int| 0 <= r < res.max_rows ==> (#[trigger] res.cell_status@[r])@.len() == res.max_cols,
        forall|r: int, c: int| 0 <= r < res.max_rows && 0 <= c < res.max_cols ==>
            #[trigger] res.cell_status@[r]@[c] == status2(grid_view(res.left_grid@), grid_view(res.right_grid@), r, c),
        res.diff_count == count_nonzero(status_view(res.cell_status@)),
{
    let delim = detect_delimiter(left_text);
    let left_grid = parse_csv(left_text, delim);
    let right_grid = parse_csv(right_text, delim);
    let ghost lg = grid_view(left_grid@);
    let ghost rg = grid_view(right_grid@);
    let max_rows = if left_grid.len() > right_grid.len() { left_grid.len() } else { right_grid.len() };
    let lw = grid_width(&left_grid);
    let rw = grid_width(&right_grid);
    let max_cols = if lw > rw { lw } else { rw };
    let mut cell_status: Vec<Vec<i32>> = Vec::new();
    let mut diff_count: usize = 0;
    let mut r: usize = 0;
    while r < max_rows
        invariant
            r <= max_rows,
            lg == grid_view(left_grid@),
            rg == grid_view(right_grid@),
            max_rows == max_nat(left_grid@.len(), right_grid@.len()),
            max_cols == max_nat(max_width(lg), max_width(rg)),
            table_fits(max_rows as nat, max_cols as nat),
            cell_status@.len() == r,
            forall|k: int| 0 <= k < r ==> (#[trigger] cell_status@[k])@.len() == max_cols,
            forall|k: int, c: int| 0 <= k < r && 0 <= c < max_cols ==>
                #[trigger] cell_status@[k]@[c] == status2(lg, rg, k, c),
            diff_count == count_nonzero(status_view(cell_status@)),
            diff_count <= r * max_cols,
        decreases max_rows - r,
    {
        let has_l = r < left_grid.len();
        let has_r = r < right_grid.len();
        let mut row_status: Vec<i32> = Vec::new();
        let mut row_count: usize = 0;
        let mut c: usize = 0;
        while c < max_cols
            invariant
                c <= max_cols,
                r < max_rows,
                has_l == (r < lg.len()),
                has_r == (r < rg.len()),
                lg == grid_view(left_grid@),
                rg == grid_view(right_grid@),
                row_status@.len() == c,
                forall|x: int| 0 <= x < c ==> row_status@[x] == status2(lg, rg, r as int, x),
                row_count == count_nonzero_row(row_status@),
                row_count <= c,
            decreases max_cols - c,
        {
            let status = if has_l && !has_r {
                2
            } else if !has_l && has_r {
                3
            } else if same_cell(&left_grid, &right_grid, r, c) {
                0
            } else {
                1
            };
            let ghost old_row = row_status@;
            row_status.push(status);
            assert(row_status@.drop_last() =~= old_row);
            if status != 0 {
                row_count = row_count + 1;
            }
            c = c + 1;
        }
        proof {
            assert((r + 1) * max_cols == r * max_cols + max_cols) by (nonlinear_arith);
            assert((r + 1) * max_cols <= max_rows * max_cols) by (nonlinear_arith)
                requires r + 1 <= max_rows;
        }
        let ghost old_st = cell_status@;
        cell_status.push(row_status);
        assert(status_view(cell_status@).drop_last() =~= status_view(old_st));
        diff_count = diff_count + row_count;
        r = r + 1;
    }
    CsvTableResult { left_grid, right_grid, max_rows, max_cols, cell_status, diff_count }
}

/// 3-way full comparison result including all three grids and per-cell status.
#[derive(Debug, Clone)]
pub struct CsvTableResult3Way {
    pub base_grid: Vec<Vec<String>>,
    pub left_grid: Vec<Vec<String>>,
    pub right_grid: Vec<Vec<String>>,
    pub max_rows: usize,
    pub max_cols: usize,
    /// cell_status[row][col]:
    /// 0=identical, 1=left-changed, 2=right-changed, 3=both-changed-same,
    /// 4=conflict, 5=base-only row, 6=left-only row, 7=right-only row
    pub cell_status: Vec<Vec<i32>>,
    pub diff_count: usize,
    pub conflict_count: usize,
}

/// Three-way status of a cell. Rows present on one side only are 5 (base),
/// 6 (left) or 7 (right); a row added on both sides is 3 when the two agree
/// and 4 otherwise; else the left and right cells are compared with the base:
/// 0 neither changed, 1 left changed, 2 right changed, 3 both changed alike,
/// 4 both changed differently.
pub open spec fn status3(
    bg: Seq<Seq<Seq<char>>>,
    lg: Seq<Seq<Seq<char>>>,
    rg: Seq<Seq<Seq<char>>>,
    r: int,
    c: int,
) -> i32 {
    let hb = r < bg.len();
    let hl = r < lg.len();
    let hr = r < rg.len();
    let bv = cell(bg, r, c);
    let lv = cell(lg, r, c);
    let rv = cell(rg, r, c);
    if !hb && hl && !hr {
        6
    } else if !hb && !hl && hr {
        7
    } else if hb && !hl && !hr {
        5
    } else if !hb && hl && hr {
        if lv == rv { 3 } else { 4 }
    } else if lv == bv && rv == bv {
        0
    } else if lv != bv && rv == bv {
        1
    } else if lv == bv && rv != bv {
        2
    } else if lv == rv {
        3
    } else {
        4
    }
}

pub open spec fn max3(a: nat, b: nat, c: nat) -> nat {
    max_nat(max_nat(a, b), c)
}

/// Compares three CSV/TSV texts (delimiter guessed from the base text) and
/// returns the three grids with the three-way status of every cell.
pub fn compare_csv_full_3way(base_text: &str, left_text: &str, right_text: &str) -> (res: CsvTableResult3Way)
    requires
        ({
            let d = delimiter_of(base_text@);
            let b = csv_table(base_text@, d);
            let l = csv_table(left_text@, d);
            let r = csv_table(right_text@, d);
            table_fits(max3(b.len(), l.len(), r.len()), max3(max_width(b), max_width(l), max_width(r)))
        }),
    ensures
        grid_view(res.base_grid@) == csv_table(base_text@, delimiter_of(base_text@)),
        grid_view(res.left_grid@) == csv_table(left_text@, delimiter_of(base_text@)),
        grid_view(res.right_grid@) == csv_table(right_text@, delimiter_of(base_text@)),
        res.max_rows == max3(res.base_grid@.len(), res.left_grid@.len(), res.right_grid@.len()),
        res.max_cols == max3(
            max_width(grid_view(res.base_grid@)),
            max_width(grid_view(res.left_grid@)),
            max_width(grid_view(res.right_grid@)),
        ),
        res.cell_status@.len() == res.max_rows,
        forall|r: int| 0 <= r < res.max_rows ==> (#[trigger] res.cell_status@[r])@.len() == res.max_cols,
        forall|r: int, c: int| 0 <= r < res.max_rows && 0 <= c < res.max_cols ==>
            #[trigger] res.cell_status@[r]@[c] == status3(
                grid_view(res.base_grid@), grid_view(res.left_grid@), grid_view(res.right_grid@), r, c),
        res.diff_count == count_nonzero(status_view(res.cell_status@)),
        res.conflict_count == count_value(status_view(res.cell_status@), 4),
{
    let delim = detect_delimiter(base_text);
    let base_grid = parse_csv(base_text, delim);
    let left_grid = parse_csv(left_text, delim);
    let right_grid = parse_csv(right_text, delim);
    let ghost bg = grid_view(base_grid@);
    let ghost lg = grid_view(left_grid@);
    let ghost rg = grid_view(right_grid@);
    let m1 = if base_grid.len() > left_grid.len() { base_grid.len() } else { left_grid.len() };
    let max_rows = if m1 > right_grid.len() { m1 } else { right_grid.len() };
    let bw = grid_width(&base_grid);
    let lw = grid_width(&left_grid);
    let rw = grid_width(&right_grid);
    let w1 = if bw > lw { bw } else { lw };
    let max_cols = if w1 > rw { w1 } else { rw };
    let mut cell_status: Vec<Vec<i32>> = Vec::new();
    let mut diff_count: usize = 0;
    let mut conflict_count: usize = 0;
    let mut r: usize = 0;
    while r < max_rows
        invariant
            r <= max_rows,
            bg == grid_view(base_grid@),
            lg == grid_view(left_grid@),
            rg == grid_view(right_grid@),
            max_rows == max3(base_grid@.len(), left_grid@.len(), right_grid@.len()),
            max_cols == max3(max_width(bg), max_width(lg), max_width(rg)),
            table_fits(max_rows as nat, max_cols as nat),
            cell_status@.len() == r,
            forall|k: int| 0 <= k < r ==> (#[trigger] cell_status@[k])@.len() == max_cols,
            forall|k: int, c: int| 0 <= k < r && 0 <= c < max_cols ==>
                #[trigger] cell_status@[k]@[c] == status3(bg, lg, rg, k, c),
            diff_count == count_nonzero(status_view(cell_status@)),
            conflict_count == count_value(status_view(cell_status@), 4),
            diff_count <= r * max_cols,
            conflict_count <= r * max_cols,
        decreases max_rows - r,
    {
        let hb = r < base_grid.len();
        let hl = r < left_grid.len();
        let hr = r < right_grid.len();
        let mut row_status: Vec<i32> = Vec::new();
        let mut row_diffs: usize = 0;
        let mut row_conflicts: usize = 0;
        let mut c: usize = 0;
        while c < max_cols
            invariant
                c <= max_cols,
                r < max_rows,
                hb == (r < bg.len()),
                hl == (r < lg.len()),
                hr == (r < rg.len()),
                bg == grid_view(base_grid@),
                lg == grid_view(left_grid@),
                rg == grid_view(right_grid@),
                row_status@.len() == c,
                forall|x: int| 0 <= x < c ==> row_status@[x] == status3(bg, lg, rg, r as int, x),
                row_diffs == count_nonzero_row(row_status@),
                row_conflicts == count_value_row(row_status@, 4),
                row_diffs <= c,
                row_conflicts <= c,
            decreases max_cols - c,
        {
            let status: i32 = if !hb && hl && !hr {
                6
            } else if !hb && !hl && hr {
                7
            } else if hb && !hl && !hr {
                5
            } else if !hb && hl && hr {
                if same_cell(&left_grid, &right_grid, r, c) { 3 } else { 4 }
            } else {
                let left_changed = !same_cell(&left_grid, &base_grid, r, c);
                let right_changed = !same_cell(&right_grid, &base_grid, r, c);
                if !left_changed && !right_changed {
                    0
                } else if left_changed && !right_changed {
                    1
                } else if !left_changed && right_changed {
                    2
                } else if same_cell(&left_grid, &right_grid, r, c) {
                    3
                } else {
                    4
                }
            };
            let ghost old_row = row_status@;
            row_status.push(status);
            assert(row_status@.drop_last() =~= old_row);
            if status != 0 {
                row_diffs = row_diffs + 1;
            }
            if status == 4 {
                row_conflicts = row_conflicts + 1;
            }
            c = c + 1;
        }
        proof {
            assert((r + 1) * max_cols == r * max_cols + max_cols) by (nonlinear_arith);
            assert((r + 1) * max_cols <= max_rows * max_cols) by (nonlinear_arith)
                requires r + 1 <= max_rows;
        }
        let ghost old_st = cell_status@;
        cell_status.push(row_status);
        assert(status_view(cell_status@).drop_last() =~= status_view(old_st));
        diff_count = diff_count + row_diffs;
        conflict_count = conflict_count + row_conflicts;
        r = r + 1;
    }
    CsvTableResult3Way {
        base_grid,
        left_grid,
        right_grid,
        max_rows,
        max_cols,
        cell_status,
        diff_count,
        conflict_count,
    }
}

/// A cell difference as plain values: 1-based row and column, column name,
/// left and right text, status.
pub type CellDiffView = (nat, nat, Seq<char>, Seq<char>, Seq<char>, i32);

pub open spec fn cell_diff_view(d: CsvCellDiff) -> CellDiffView {
    (d.row as nat, d.col as nat, d.col_name@, d.left_value@, d.right_value@, d.status)
}

/// The entry reported for cell `(r, c)`.
pub open spec fn diff_entry(lg: Seq<Seq<Seq<char>>>, rg: Seq<Seq<Seq<char>>>, r: int, c: int) -> CellDiffView {
    ((r + 1) as nat, (c + 1) as nat, col_name(c as nat), cell(lg, r, c), cell(rg, r, c), status2(lg, rg, r, c))
}

/// The number of cells of row `r` in the wider of the two tables.
pub open spec fn row_width2(lg: Seq<Seq<Seq<char>>>, rg: Seq<Seq<Seq<char>>>, r: int) -> nat {
    max_nat(
        if 0 <= r < lg.len() { lg[r].len() } else { 0 },
        if 0 <= r < rg.len() { rg[r].len() } else { 0 },
    )
}

/// The entries of the non-identical cells among the first `n` of row `r`.
pub open spec fn row_diffs(lg: Seq<Seq<Seq<char>>>, rg: Seq<Seq<Seq<char>>>, r: int, n: int) -> Seq<CellDiffView>
    decreases n,
{
    if n <= 0 {
        Seq::empty()
    } else {
        row_diffs(lg, rg, r, n - 1) + if status2(lg, rg, r, n - 1) != 0 {
            seq![diff_entry(lg, rg, r, n - 1)]
        } else {
            Seq::empty()
        }
    }
}

/// The entries of the non-identical cells of the first `n` rows, row by row.
pub open spec fn table_diffs(lg: Seq<Seq<Seq<char>>>, rg: Seq<Seq<Seq<char>>>, n: int) -> Seq<CellDiffView>
    decreases n,
{
    if n <= 0 {
        Seq::empty()
    } else {
        table_diffs(lg, rg, n - 1) + row_diffs(lg, rg, n - 1, row_width2(lg, rg, n - 1) as int)
    }
}

/// Cell `(r, c)` of a grid as a new string, empty when absent.
fn cell_string(g: &Vec<Vec<String>>, r: usize, c: usize) -> (s: String)
    ensures
        s@ == cell(grid_view(g@), r as int, c as int),
{
    if r < g.len() && c < g[r].len() {
        assert(grid_view(g@)[r as int][c as int] == g@[r as int]@[c as int]@);
        crate::text::str_to_string(g[r][c].as_str())
    } else {
        let s = String::new();
        assert(s@ =~= Seq::<char>::empty());
        s
    }
}

/// Compares two CSV/TSV texts (delimiter guessed from the left text) and
/// lists every cell that is not identical, row by row, each row over the
/// width of its wider side.
pub fn compare_csv(left_text: &str, right_text: &str) -> (diffs: Vec<CsvCellDiff>)
    ensures
        diffs@.map_values(|d: CsvCellDiff| cell_diff_view(d)) == table_diffs(
            csv_table(left_text@, delimiter_of(left_text@)),
            csv_table(right_text@, delimiter_of(left_text@)),
            max_nat(
                csv_table(left_text@, delimiter_of(left_text@)).len(),
                csv_table(right_text@, delimiter_of(left_text@)).len(),
            ) as int,
        ),
{
    let delim = detect_delimiter(left_text);
    let left_rows = parse_csv(left_text, delim);
    let right_rows = parse_csv(right_text, delim);
    let ghost lg = grid_view(left_rows@);
    let ghost rg = grid_view(right_rows@);
    let max_rows = if left_rows.len() > right_rows.len() { left_rows.len() } else { right_rows.len() };
    let mut diffs: Vec<CsvCellDiff> = Vec::new();
    let mut r: usize = 0;
    while r < max_rows
        invariant
            r <= max_rows,
            max_rows == max_nat(left_rows@.len(), right_rows@.len()),
            lg == grid_view(left_rows@),
            rg == grid_view(right_rows@),
            diffs@.map_values(|d: CsvCellDiff| cell_diff_view(d)) == table_diffs(lg, rg, r as int),
        decreases max_rows - r,
    {
        let has_l = r < left_rows.len();
        let has_r = r < right_rows.len();
        let wl = if has_l { left_rows[r].len() } else { 0 };
        let wr = if has_r { right_rows[r].len() } else { 0 };
        let max_cols = if wl > wr { wl } else { wr };
        assert(max_cols == row_width2(lg, rg, r as int));
        let ghost before = diffs@.map_values(|d: CsvCellDiff| cell_diff_view(d));
        let mut c: usize = 0;
        while c < max_cols
            invariant
                c <= max_cols,
                r < max_rows,
                has_l == (r < lg.len()),
                has_r == (r < rg.len()),
                lg == grid_view(left_rows@),
                rg == grid_view(right_rows@),
                diffs@.map_values(|d: CsvCellDiff| cell_diff_view(d)) == before + row_diffs(lg, rg, r as int, c as int),
            decreases max_cols - c,
        {
            let status: i32 = if has_l && !has_r {
                2
            } else if !has_l && has_r {
                3
            } else if same_cell(&left_rows, &right_rows, r, c) {
                0
            } else {
                1
            };
            let ghost prev = diffs@;
            if status != 0 {
                let d = CsvCellDiff {
                    row: r + 1,
                    col: c + 1,
                    col_name: col_to_name(c),
                    left_value: cell_string(&left_rows, r, c),
                    right_value: cell_string(&right_rows, r, c),
                    status,
                };
                diffs.push(d);
                assert(diffs@.map_values(|d: CsvCellDiff| cell_diff_view(d))
                    =~= prev.map_values(|d: CsvCellDiff| cell_diff_view(d)).push(cell_diff_view(d)));
                assert(cell_diff_view(d) == diff_entry(lg, rg, r as int, c as int));
                assert(row_diffs(lg, rg, r as int, c + 1) =~= row_diffs(lg, rg, r as int, c as int).push(diff_entry(lg, rg, r as int, c as int)));
            } else {
                assert(row_diffs(lg, rg, r as int, c + 1) =~= row_diffs(lg, rg, r as int, c as int));
            }
            assert(before + row_diffs(lg, rg, r as int, c + 1) =~= diffs@.map_values(|d: CsvCellDiff| cell_diff_view(d)));
            c = c + 1;
        }
        r = r + 1;
    }
    diffs
}

} // verus!
