//! Decisions of a comparison tab: which comparison a pair of files gets, the
//! messages shown for a diff, what a rescan does, and text search in a view.
use vstd::prelude::*;
use crate::text::{push_str, push_char, str_to_string, to_lowercase, lowercase, str_contains, has_infix};
use crate::numfmt::{push_dec, dec};
use crate::archive::{is_zip_bytes, is_zip_path, zip_magic, zip_named};
use crate::excel::{is_excel_path, excel_named};
use crate::csv::{is_csv_path, csv_named};
use crate::image_compare::{is_image_path, image_named};
use crate::encoding::{is_binary, looks_binary};
use crate::models::DiffResult;
use crate::view::ViewMode;
use crate::diff_view::{DiffLineData, ThreeWayLineData, compute_diff_stats, stats_text};

verus! {

/// The comparison that a pair of files gets.
#[derive(Debug, Clone, Copy, PartialEq, Eq, Structural)]
pub enum CompareKind {
    Zip,
    Excel,
    Csv,
    Image,
    Binary,
    Text,
}

/// Archives when both sides are ZIP files (by their first bytes or their
/// name), else workbooks, CSV tables or images when both names say so, else
/// binary when either side holds a NUL byte early on, else text.
pub open spec fn compare_kind_of(lp: Seq<char>, lb: Seq<u8>, rp: Seq<char>, rb: Seq<u8>) -> CompareKind {
    if (zip_magic(lb) || zip_named(lp)) && (zip_magic(rb) || zip_named(rp)) {
        CompareKind::Zip
    } else if excel_named(lp) && excel_named(rp) {
        CompareKind::Excel
    } else if csv_named(lp) && csv_named(rp) {
        CompareKind::Csv
    } else if image_named(lp) && image_named(rp) {
        CompareKind::Image
    } else if looks_binary(lb) || looks_binary(rb) {
        CompareKind::Binary
    } else {
        CompareKind::Text
    }
}

/// Decides which comparison two files get from their paths and contents.
pub fn compare_kind(left_path: &str, left_bytes: &[u8], right_path: &str, right_bytes: &[u8]) -> (k: CompareKind)
    ensures
        k == compare_kind_of(left_path@, left_bytes@, right_path@, right_bytes@),
{
    if (is_zip_bytes(left_bytes) || is_zip_path(left_path)) && (is_zip_bytes(right_bytes) || is_zip_path(right_path)) {
        CompareKind::Zip
    } else if is_excel_path(left_path) && is_excel_path(right_path) {
        CompareKind::Excel
    } else if is_csv_path(left_path) && is_csv_path(right_path) {
        CompareKind::Csv
    } else if is_image_path(left_path) && is_image_path(right_path) {
        CompareKind::Image
    } else if is_binary(left_bytes) || is_binary(right_bytes) {
        CompareKind::Binary
    } else {
        CompareKind::Text
    }
}

fn same_bytes(a: &[u8], b: &[u8]) -> (r: bool)
    ensures
        r == (a@ == b@),
{
    if a.len() != b.len() {
        return false;
    }
    let mut i: usize = 0;
    while i < a.len()
        invariant
            i <= a@.len(),
            a@.len() == b@.len(),
            a@.take(i as int) == b@.take(i as int),
        decreases a@.len() - i,
    {
        if a[i] != b[i] {
            assert(a@[i as int] != b@[i as int]);
            return false;
        }
        assert(a@.take(i + 1) =~= a@.take(i as int).push(a@[i as int]));
        assert(b@.take(i + 1) =~= b@.take(i as int).push(b@[i as int]));
        i = i + 1;
    }
    assert(a@ =~= a@.take(a@.len() as int));
    assert(b@ =~= b@.take(b@.len() as int));
    true
}

/// The message shown for two binary files: their sizes and whether they are
/// byte for byte the same.
pub open spec fn binary_message(lb: Seq<u8>, rb: Seq<u8>) -> Seq<char> {
    "Binary files: Left "@ + dec(lb.len()) + " bytes, Right "@ + dec(rb.len()) + " bytes — "@ + if lb == rb {
        "identical"@
    } else {
        "different"@
    }
}

/// `s` ends with `t`.
pub open spec fn ends_with(s: Seq<char>, t: Seq<char>) -> bool {
    s.len() >= t.len() && s.skip(s.len() - t.len()) == t
}

/// The message for two binary files closes with the word identical exactly
/// when the two byte sequences are equal (same length and every byte the
/// same), and with the word different otherwise, in particular for equally
/// long files with a differing byte; it opens with the left size.
pub proof fn lemma_binary_verdict(lb: Seq<u8>, rb: Seq<u8>)
    ensures
        ends_with(binary_message(lb, rb), "identical"@) <==> lb == rb,
        ends_with(binary_message(lb, rb), "different"@) <==> lb != rb,
        binary_message(lb, rb).take(("Binary files: Left "@ + dec(lb.len())).len() as int) == "Binary files: Left "@
            + dec(lb.len()),
{
    reveal_strlit("identical");
    reveal_strlit("different");
    let head = "Binary files: Left "@ + dec(lb.len()) + " bytes, Right "@ + dec(rb.len()) + " bytes — "@;
    let m = binary_message(lb, rb);
    let t = if lb == rb { "identical"@ } else { "different"@ };
    assert(m == head + t);
    assert(m.skip(m.len() - 9) =~= t);
    assert("identical"@ != "different"@) by {
        assert("identical"@[0] != "different"@[0]);
    }
    let p = "Binary files: Left "@ + dec(lb.len());
    assert(m.take(p.len() as int) =~= p);
}

/// The status message for two binary files.
pub fn binary_files_message(left_bytes: &[u8], right_bytes: &[u8]) -> (s: String)
    ensures
        s@ == binary_message(left_bytes@, right_bytes@),
{
    let mut s = str_to_string("Binary files: Left ");
    push_dec(&mut s, left_bytes.len() as u64);
    push_str(&mut s, " bytes, Right ");
    push_dec(&mut s, right_bytes.len() as u64);
    push_str(&mut s, " bytes — ");
    if same_bytes(left_bytes, right_bytes) {
        push_str(&mut s, "identical");
    } else {
        push_str(&mut s, "different");
    }
    s
}

/// The title of a two-file tab: "left ↔ right".
pub fn tab_title(left_name: &str, right_name: &str) -> (s: String)
    ensures
        s@ == left_name@ + " ↔ "@ + right_name@,
{
    let mut s = str_to_string(left_name);
    push_str(&mut s, " ↔ ");
    push_str(&mut s, right_name);
    s
}

/// What follows the status of a text diff: " [left enc  |  right enc] (left type / right type)".
pub fn encoding_status(left_enc: &str, right_enc: &str, left_type: &str, right_type: &str) -> (s: String)
    ensures
        s@ == " ["@ + left_enc@ + "  |  "@ + right_enc@ + "] ("@ + left_type@ + " / "@ + right_type@ + ")"@,
{
    let mut s = str_to_string(" [");
    push_str(&mut s, left_enc);
    push_str(&mut s, "  |  ");
    push_str(&mut s, right_enc);
    push_str(&mut s, "] (");
    push_str(&mut s, left_type);
    push_str(&mut s, " / ");
    push_str(&mut s, right_type);
    push_str(&mut s, ")");
    assert(s@ =~= " ["@ + left_enc@ + "  |  "@ + right_enc@ + "] ("@ + left_type@ + " / "@ + right_type@ + ")"@);
    s
}

/// What the view shows once a diff is computed: the current block (the first
/// one, or -1 when there is none), the statistics text and the status line.
pub struct DiffSummary {
    pub current_diff: i32,
    pub stats: String,
    pub status: String,
}

/// The status line of a diff: identical files, or the first of the
/// differences with the statistics, or the number of differences.
pub open spec fn diff_status(count: u32, current: i32, stats: Seq<char>) -> Seq<char> {
    if count == 0 {
        "Files are identical"@
    } else if current >= 0 {
        "Difference 1 of "@ + dec(count as nat) + " ["@ + stats + "]"@
    } else {
        dec(count as nat) + " differences found ["@ + stats + "]"@
    }
}

/// Summarizes a computed diff for the view.
pub fn summarize_diff(result: &DiffResult) -> (d: DiffSummary)
    requires
        result.lines@.len() < u32::MAX,
    ensures
        d.current_diff == (if result.diff_positions@.len() == 0 { -1i32 } else { 0i32 }),
        d.stats@ == stats_text(result.lines@),
        d.status@ == diff_status(result.diff_count, d.current_diff, d.stats@),
{
    let current_diff: i32 = if result.diff_positions.len() == 0 { -1 } else { 0 };
    let stats = compute_diff_stats(result);
    let mut status = String::new();
    if result.diff_count == 0 {
        push_str(&mut status, "Files are identical");
    } else if current_diff >= 0 {
        push_str(&mut status, "Difference 1 of ");
        push_dec(&mut status, result.diff_count as u64);
        push_str(&mut status, " [");
        push_str(&mut status, stats.as_str());
        push_str(&mut status, "]");
        assert(status@ =~= "Difference 1 of "@ + dec(result.diff_count as nat) + " ["@ + stats@ + "]"@);
    } else {
        push_dec(&mut status, result.diff_count as u64);
        push_str(&mut status, " differences found [");
        push_str(&mut status, stats.as_str());
        push_str(&mut status, "]");
        assert(status@ =~= dec(result.diff_count as nat) + " differences found ["@ + stats@ + "]"@);
    }
    proof {
        if result.diff_count == 0 {
            assert(status@ =~= "Files are identical"@);
        }
    }
    DiffSummary { current_diff, stats, status }
}

/// What a rescan does.
#[derive(Debug, Clone, Copy, PartialEq, Eq, Structural)]
pub enum RescanAction {
    /// Read both files again and diff them.
    RunDiff,
    /// Diff the texts rebuilt from the edited view.
    CompareEdited,
    /// Read the three files again and diff them.
    RunThreeWay,
    /// Diff the three texts rebuilt from the edited view.
    CompareEditedThreeWay,
    /// List both folders again.
    RunFolder,
    /// Read both tables (CSV or workbook) again.
    ReloadTable,
    /// Compare the tables rebuilt from the edited view.
    CompareEditedTable,
    /// Read the three CSV tables again.
    ReloadTableThreeWay,
    /// Compare the three tables rebuilt from the edited view.
    CompareEditedTableThreeWay,
    /// Nothing to rescan.
    Nothing,
}

/// Files are read again only when the tab has its paths and holds no edits;
/// with edits (or without files), what the view holds is compared.
pub open spec fn rescan_plan(
    mode: ViewMode,
    has_base: bool,
    has_left: bool,
    has_right: bool,
    editing_dirty: bool,
    has_unsaved: bool,
) -> RescanAction {
    let clean = !editing_dirty && !has_unsaved;
    let table = mode == ViewMode::CsvCompare || mode == ViewMode::ExcelCompare;
    if mode == ViewMode::FileDiff {
        if has_left && has_right && clean { RescanAction::RunDiff } else { RescanAction::CompareEdited }
    } else if mode == ViewMode::ThreeWayText {
        if has_base && has_left && has_right && clean {
            RescanAction::RunThreeWay
        } else {
            RescanAction::CompareEditedThreeWay
        }
    } else if mode == ViewMode::FolderCompare {
        RescanAction::RunFolder
    } else if table && has_left && has_right && clean {
        RescanAction::ReloadTable
    } else if table && !clean {
        RescanAction::CompareEditedTable
    } else if mode == ViewMode::CsvThreeWay && has_base && has_left && has_right && clean {
        RescanAction::ReloadTableThreeWay
    } else if mode == ViewMode::CsvThreeWay && !clean {
        RescanAction::CompareEditedTableThreeWay
    } else {
        RescanAction::Nothing
    }
}

/// Decides what a rescan of a tab does.
pub fn rescan_action(
    mode: ViewMode,
    has_base: bool,
    has_left: bool,
    has_right: bool,
    editing_dirty: bool,
    has_unsaved: bool,
) -> (a: RescanAction)
    ensures
        a == rescan_plan(mode, has_base, has_left, has_right, editing_dirty, has_unsaved),
{
    let clean = !editing_dirty && !has_unsaved;
    let table = mode == ViewMode::CsvCompare || mode == ViewMode::ExcelCompare;
    if mode == ViewMode::FileDiff {
        if has_left && has_right && clean { RescanAction::RunDiff } else { RescanAction::CompareEdited }
    } else if mode == ViewMode::ThreeWayText {
        if has_base && has_left && has_right && clean {
            RescanAction::RunThreeWay
        } else {
            RescanAction::CompareEditedThreeWay
        }
    } else if mode == ViewMode::FolderCompare {
        RescanAction::RunFolder
    } else if table && has_left && has_right && clean {
        RescanAction::ReloadTable
    } else if table && !clean {
        RescanAction::CompareEditedTable
    } else if mode == ViewMode::CsvThreeWay && has_base && has_left && has_right && clean {
        RescanAction::ReloadTableThreeWay
    } else if mode == ViewMode::CsvThreeWay && !clean {
        RescanAction::CompareEditedTableThreeWay
    } else {
        RescanAction::Nothing
    }
}

/// The status line after a rescan: files or folders read again, or the
/// edited view compared; empty when nothing was done.
pub fn rescan_status(a: RescanAction) -> (s: &'static str)
    ensures
        s@ == match a {
            RescanAction::RunDiff | RescanAction::RunThreeWay | RescanAction::ReloadTable
            | RescanAction::ReloadTableThreeWay => "Files rescanned"@,
            RescanAction::RunFolder => "Folders rescanned"@,
            RescanAction::Nothing => ""@,
            _ => "Compared"@,
        },
{
    match a {
        RescanAction::RunDiff | RescanAction::RunThreeWay | RescanAction::ReloadTable
        | RescanAction::ReloadTableThreeWay => "Files rescanned",
        RescanAction::RunFolder => "Folders rescanned",
        RescanAction::Nothing => "",
        _ => "Compared",
    }
}

/// The row that the table view highlights: the start of the current diff
/// block, or -1 when there is none (or it is out of range).
pub fn table_highlight_row(diff_positions: &Vec<usize>, current_diff: i32) -> (r: i32)
    ensures
        r == (if 0 <= current_diff < diff_positions@.len() && diff_positions@[current_diff as int] <= i32::MAX {
            diff_positions@[current_diff as int] as i32
        } else {
            -1i32
        }),
{
    if current_diff >= 0 && (current_diff as usize) < diff_positions.len() {
        let p = diff_positions[current_diff as usize];
        if p <= i32::MAX as usize {
            return p as i32;
        }
    }
    -1
}

} // verus!

verus! {

/// Does a two-way row contain the query (ignoring case) on either side?
pub open spec fn row_hit(r: DiffLineData, q: Seq<char>) -> bool {
    has_infix(lowercase(r.left_text@), lowercase(q)) || has_infix(lowercase(r.right_text@), lowercase(q))
}

/// Does a three-way row contain the query (ignoring case) in any pane?
pub open spec fn row_hit3(r: ThreeWayLineData, q: Seq<char>) -> bool {
    has_infix(lowercase(r.left_text@), lowercase(q)) || has_infix(lowercase(r.base_text@), lowercase(q))
        || has_infix(lowercase(r.right_text@), lowercase(q))
}

/// The positions at which `hits` is true, in order.
pub open spec fn hit_positions(hits: Seq<bool>) -> Seq<usize>
    decreases hits.len(),
{
    if hits.len() == 0 {
        Seq::empty()
    } else if hits.last() {
        hit_positions(hits.drop_last()).push((hits.len() - 1) as usize)
    } else {
        hit_positions(hits.drop_last())
    }
}

/// What a search finds: the rows that match, the current match (the first,
/// or -1) and the status line.
pub struct SearchOutcome {
    pub matches: Vec<usize>,
    pub current_match: i32,
    pub status_text: String,
}

/// The status line of a search.
pub open spec fn search_status(q: Seq<char>, count: nat) -> Seq<char> {
    if q.len() == 0 {
        "Search cleared"@
    } else if count > 0 {
        "Found "@ + dec(count) + " matches for \""@ + q + "\""@
    } else {
        "No matches found for \""@ + q + "\""@
    }
}

/// The outcome of a search whose rows matched where `hits` is true.
pub open spec fn outcome_ok(o: SearchOutcome, q: Seq<char>, hits: Seq<bool>) -> bool {
    &&& o.matches@ == (if q.len() == 0 { Seq::empty() } else { hit_positions(hits) })
    &&& o.current_match == (if o.matches@.len() > 0 { 0i32 } else { -1i32 })
    &&& o.status_text@ == search_status(q, o.matches@.len())
}

fn outcome(matches: Vec<usize>, query: &str) -> (o: SearchOutcome)
    requires
        query@.len() > 0,
    ensures
        o.matches@ == matches@,
        o.current_match == (if matches@.len() > 0 { 0i32 } else { -1i32 }),
        o.status_text@ == search_status(query@, matches@.len()),
{
    let mut status = String::new();
    let n = matches.len();
    if n > 0 {
        push_str(&mut status, "Found ");
        push_dec(&mut status, n as u64);
        push_str(&mut status, " matches for \"");
        push_str(&mut status, query);
        push_str(&mut status, "\"");
        assert(status@ =~= "Found "@ + dec(n as nat) + " matches for \""@ + query@ + "\""@);
    } else {
        push_str(&mut status, "No matches found for \"");
        push_str(&mut status, query);
        push_str(&mut status, "\"");
        assert(status@ =~= "No matches found for \""@ + query@ + "\""@);
    }
    let current_match: i32 = if n > 0 { 0 } else { -1 };
    SearchOutcome { matches, current_match, status_text: status }
}

fn cleared() -> (o: SearchOutcome)
    ensures
        o.matches@.len() == 0,
        o.current_match == -1,
        o.status_text@ == "Search cleared"@,
{
    SearchOutcome { matches: Vec::new(), current_match: -1, status_text: str_to_string("Search cleared") }
}

proof fn lemma_hit_positions_push(hits: Seq<bool>, b: bool)
    ensures
        hit_positions(hits.push(b)) == if b { hit_positions(hits).push(hits.len() as usize) } else { hit_positions(hits) },
{
    assert(hits.push(b).drop_last() =~= hits);
}

/// Marks the rows of a two-way view that contain the query, ignoring case
/// (none for an empty query), and lists them.
pub fn search_rows(rows: &mut Vec<DiffLineData>, query: &str) -> (o: SearchOutcome)
    ensures
        final(rows)@.len() == old(rows)@.len(),
        forall|i: int| 0 <= i < old(rows)@.len() ==> #[trigger] final(rows)@[i] == (DiffLineData {
            is_search_match: query@.len() > 0 && row_hit(old(rows)@[i], query@),
            ..old(rows)@[i]
        }),
        outcome_ok(o, query@, Seq::new(old(rows)@.len(), |i: int| row_hit(old(rows)@[i], query@))),
{
    let ghost start = rows@;
    let ghost hits = Seq::new(start.len(), |i: int| row_hit(start[i], query@));
    let empty = query.is_empty();
    let q = to_lowercase(query);
    let mut matches: Vec<usize> = Vec::new();
    let mut i: usize = 0;
    while i < rows.len()
        invariant
            i <= rows@.len(),
            rows@.len() == start.len(),
            empty == (query@.len() == 0),
            q@ == lowercase(query@),
            hits == Seq::new(start.len(), |i: int| row_hit(start[i], query@)),
            forall|j: int| i <= j < start.len() ==> #[trigger] rows@[j] == start[j],
            forall|j: int| 0 <= j < i ==> #[trigger] rows@[j] == (DiffLineData {
                is_search_match: !empty && row_hit(start[j], query@),
                ..start[j]
            }),
            !empty ==> matches@ == hit_positions(hits.take(i as int)),
        decreases start.len() - i,
    {
        let hit = if empty {
            false
        } else {
            let l = to_lowercase(rows[i].left_text.as_str());
            let r = to_lowercase(rows[i].right_text.as_str());
            str_contains(l.as_str(), q.as_str()) || str_contains(r.as_str(), q.as_str())
        };
        proof {
            assert(hits.take(i + 1) =~= hits.take(i as int).push(hits[i as int]));
            lemma_hit_positions_push(hits.take(i as int), hits[i as int]);
        }
        if hit {
            matches.push(i);
        }
        rows[i].is_search_match = hit;
        i = i + 1;
    }
    proof {
        assert(hits.take(start.len() as int) =~= hits);
        assert(hits =~= Seq::new(old(rows)@.len(), |i: int| row_hit(old(rows)@[i], query@)));
    }
    if empty {
        let o = cleared();
        assert(o.matches@ =~= Seq::<usize>::empty());
        assert(o.matches@ == (if query@.len() == 0 { Seq::<usize>::empty() } else { hit_positions(hits) }));
        assert(o.current_match == (if o.matches@.len() > 0 { 0i32 } else { -1i32 }));
        assert(o.status_text@ == search_status(query@, o.matches@.len()));
        o
    } else {
        let o = outcome(matches, query);
        assert(o.matches@ == (if query@.len() == 0 { Seq::<usize>::empty() } else { hit_positions(hits) }));
        o
    }
}

/// Marks the rows of a three-way view that contain the query in any pane,
/// ignoring case (none for an empty query), and lists them.
pub fn search_rows_3way(rows: &mut Vec<ThreeWayLineData>, query: &str) -> (o: SearchOutcome)
    ensures
        final(rows)@.len() == old(rows)@.len(),
        forall|i: int| 0 <= i < old(rows)@.len() ==> #[trigger] final(rows)@[i] == (ThreeWayLineData {
            is_search_match: query@.len() > 0 && row_hit3(old(rows)@[i], query@),
            ..old(rows)@[i]
        }),
        outcome_ok(o, query@, Seq::new(old(rows)@.len(), |i: int| row_hit3(old(rows)@[i], query@))),
{
    let ghost start = rows@;
    let ghost hits = Seq::new(start.len(), |i: int| row_hit3(start[i], query@));
    let empty = query.is_empty();
    let q = to_lowercase(query);
    let mut matches: Vec<usize> = Vec::new();
    let mut i: usize = 0;
    while i < rows.len()
        invariant
            i <= rows@.len(),
            rows@.len() == start.len(),
            empty == (query@.len() == 0),
            q@ == lowercase(query@),
            hits == Seq::new(start.len(), |i: int| row_hit3(start[i], query@)),
            forall|j: int| i <= j < start.len() ==> #[trigger] rows@[j] == start[j],
            forall|j: int| 0 <= j < i ==> #[trigger] rows@[j] == (ThreeWayLineData {
                is_search_match: !empty && row_hit3(start[j], query@),
                ..start[j]
            }),
            !empty ==> matches@ == hit_positions(hits.take(i as int)),
        decreases start.len() - i,
    {
        let hit = if empty {
            false
        } else {
            let l = to_lowercase(rows[i].left_text.as_str());
            let b = to_lowercase(rows[i].base_text.as_str());
            let r = to_lowercase(rows[i].right_text.as_str());
            str_contains(l.as_str(), q.as_str()) || str_contains(b.as_str(), q.as_str())
                || str_contains(r.as_str(), q.as_str())
        };
        proof {
            assert(hits.take(i + 1) =~= hits.take(i as int).push(hits[i as int]));
            lemma_hit_positions_push(hits.take(i as int), hits[i as int]);
        }
        if hit {
            matches.push(i);
        }
        rows[i].is_search_match = hit;
        i = i + 1;
    }
    proof {
        assert(hits.take(start.len() as int) =~= hits);
        assert(hits =~= Seq::new(old(rows)@.len(), |i: int| row_hit3(old(rows)@[i], query@)));
    }
    if empty {
        let o = cleared();
        assert(o.matches@ =~= Seq::<usize>::empty());
        assert(o.matches@ == (if query@.len() == 0 { Seq::<usize>::empty() } else { hit_positions(hits) }));
        assert(o.current_match == (if o.matches@.len() > 0 { 0i32 } else { -1i32 }));
        assert(o.status_text@ == search_status(query@, o.matches@.len()));
        o
    } else {
        let o = outcome(matches, query);
        assert(o.matches@ == (if query@.len() == 0 { Seq::<usize>::empty() } else { hit_positions(hits) }));
        o
    }
}

/// Searches the view of a tab: the three-way rows in the three-way text
/// view, else the two-way rows (see `search_rows` and `search_rows_3way`).
pub fn search_text(
    mode: ViewMode,
    rows: &mut Vec<DiffLineData>,
    rows_3way: &mut Vec<ThreeWayLineData>,
    query: &str,
) -> (o: SearchOutcome)
    ensures
        mode == ViewMode::ThreeWayText ==> {
            &&& final(rows)@ == old(rows)@
            &&& final(rows_3way)@.len() == old(rows_3way)@.len()
            &&& forall|i: int| 0 <= i < old(rows_3way)@.len() ==> #[trigger] final(rows_3way)@[i] == (ThreeWayLineData {
                is_search_match: query@.len() > 0 && row_hit3(old(rows_3way)@[i], query@),
                ..old(rows_3way)@[i]
            })
            &&& outcome_ok(o, query@, Seq::new(old(rows_3way)@.len(), |i: int| row_hit3(old(rows_3way)@[i], query@)))
        },
        mode != ViewMode::ThreeWayText ==> {
            &&& final(rows_3way)@ == old(rows_3way)@
            &&& final(rows)@.len() == old(rows)@.len()
            &&& forall|i: int| 0 <= i < old(rows)@.len() ==> #[trigger] final(rows)@[i] == (DiffLineData {
                is_search_match: query@.len() > 0 && row_hit(old(rows)@[i], query@),
                ..old(rows)@[i]
            })
            &&& outcome_ok(o, query@, Seq::new(old(rows)@.len(), |i: int| row_hit(old(rows)@[i], query@)))
        },
{
    if mode == ViewMode::ThreeWayText {
        search_rows_3way(rows_3way, query)
    } else {
        search_rows(rows, query)
    }
}

} // verus!

verus! {

/// What a confirmation to discard unsaved changes goes on to do.
#[derive(Debug, Clone, Copy, PartialEq, Eq, Structural)]
pub enum PendingAction {
    /// Nothing was pending.
    Nothing,
    /// Pick a new left file and compare.
    OpenLeftFile,
    /// Pick a new right file and compare.
    OpenRightFile,
    /// Pick a new left folder and compare.
    OpenLeftFolder,
    /// Pick a new right folder and compare.
    OpenRightFolder,
    /// Show the dialog for a new comparison.
    NewCompare,
}

/// The action of a pending-action code (1 to 5; any other code is none).
pub fn pending_action_of(code: i32) -> (a: PendingAction)
    ensures
        a == if code == 1 {
            PendingAction::OpenLeftFile
        } else if code == 2 {
            PendingAction::OpenRightFile
        } else if code == 3 {
            PendingAction::OpenLeftFolder
        } else if code == 4 {
            PendingAction::OpenRightFolder
        } else if code == 5 {
            PendingAction::NewCompare
        } else {
            PendingAction::Nothing
        },
{
    if code == 1 {
        PendingAction::OpenLeftFile
    } else if code == 2 {
        PendingAction::OpenRightFile
    } else if code == 3 {
        PendingAction::OpenLeftFolder
    } else if code == 4 {
        PendingAction::OpenRightFolder
    } else if code == 5 {
        PendingAction::NewCompare
    } else {
        PendingAction::Nothing
    }
}

} // verus!

verus! {

/// A file changed on disk: its modification time was recorded when it was
/// read and can be read again, and the two differ.
pub open spec fn mtime_changed(recorded: Option<u128>, current: Option<u128>) -> bool {
    match (recorded, current) {
        (Some(a), Some(b)) => a != b,
        _ => false,
    }
}

fn mtime_differs(recorded: Option<u128>, current: Option<u128>) -> (b: bool)
    ensures
        b == mtime_changed(recorded, current),
{
    match (recorded, current) {
        (Some(a), Some(b)) => a != b,
        _ => false,
    }
}

/// Whether a text comparison should be read again from disk: only in a
/// text view without edits, when the modification time of either file
/// (recorded and current, in nanoseconds; `None` when unknown) changed.
pub fn check_files_changed(
    mode: ViewMode,
    editing_dirty: bool,
    has_unsaved_changes: bool,
    left_recorded: Option<u128>,
    left_current: Option<u128>,
    right_recorded: Option<u128>,
    right_current: Option<u128>,
) -> (changed: bool)
    ensures
        changed == ((mode == ViewMode::FileDiff || mode == ViewMode::ThreeWayText) && !editing_dirty && !has_unsaved_changes
            && (mtime_changed(left_recorded, left_current) || mtime_changed(right_recorded, right_current))),
{
    if !mode.is_text_mode() {
        return false;
    }
    if editing_dirty || has_unsaved_changes {
        return false;
    }
    mtime_differs(left_recorded, left_current) || mtime_differs(right_recorded, right_current)
}

} // verus!
