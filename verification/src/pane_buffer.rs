//! Per-pane buffers of a comparison view: the rows shown in one pane, ghost
//! rows that keep the panes aligned, and the maps between rows and lines.
use vstd::prelude::*;
use crate::text::{push_char, push_str, str_to_string, join_lines_nl};
use crate::numfmt::{dec, push_dec};
use crate::models::{DiffLine, DiffResult, LineStatus, WordDiffSegment, line_status_code};
use crate::three_way::{ThreeWayLine, ThreeWayResult, ThreeWayStatus, status_code, pane_lines, pane_no, pane_text};
use crate::view::{expand_tabs, tabs_expanded};

verus! {

/// One row shown in a pane.
#[derive(Debug, Clone)]
pub struct PaneLineData {
    pub line_no: String,
    pub text: String,
    pub is_ghost: bool,
    pub status: i32,
    pub diff_index: i32,
    pub word_diff: String,
    pub is_current_diff: bool,
    pub is_search_match: bool,
    pub is_selected: bool,
    pub highlight: i32,
}

/// A pane's rows (ghost rows only align it with its sibling panes and carry
/// no text), with the row of each real line and the line of each row.
pub struct PaneBuffer {
    pub model: Vec<PaneLineData>,
    /// Row index to real line index; `None` for ghost rows.
    pub row_to_line: Vec<Option<usize>>,
    /// Real line index to row index.
    pub line_to_row: Vec<usize>,
    /// Indices of the ghost rows, in increasing order.
    pub ghost_rows: Vec<usize>,
}

/// How many of the first `i` rows are real lines.
pub open spec fn reals_before(m: Seq<PaneLineData>, i: int) -> nat
    decreases i,
{
    if i <= 0 {
        0
    } else {
        reals_before(m, i - 1) + if m[i - 1].is_ghost { 0nat } else { 1nat }
    }
}

/// The texts of the real rows, top to bottom.
pub open spec fn real_text_lines(m: Seq<PaneLineData>) -> Seq<Seq<char>>
    decreases m.len(),
{
    if m.len() == 0 {
        Seq::empty()
    } else if m.last().is_ghost {
        real_text_lines(m.drop_last())
    } else {
        real_text_lines(m.drop_last()).push(m.last().text@)
    }
}

/// The maps agree with the rows: each row maps to its line (ghosts to none),
/// each line to its row, and the ghost rows are listed in order.
pub open spec fn indexes_match(
    m: Seq<PaneLineData>,
    row_to_line: Seq<Option<usize>>,
    line_to_row: Seq<usize>,
    ghost_rows: Seq<usize>,
) -> bool {
    &&& row_to_line.len() == m.len()
    &&& forall|i: int| 0 <= i < m.len() ==> #[trigger] row_to_line[i] == if m[i].is_ghost {
        None
    } else {
        Some(reals_before(m, i) as usize)
    }
    &&& line_to_row.len() == reals_before(m, m.len() as int)
    &&& forall|k: int| 0 <= k < line_to_row.len() ==> #[trigger] line_to_row[k] < m.len() && !m[line_to_row[k] as int].is_ghost
        && reals_before(m, line_to_row[k] as int) == k
    &&& forall|k: int, j: int| 0 <= k < j < ghost_rows.len() ==> ghost_rows[k] < ghost_rows[j]
    &&& forall|k: int| 0 <= k < ghost_rows.len() ==> #[trigger] ghost_rows[k] < m.len() && m[ghost_rows[k] as int].is_ghost
    &&& forall|i: int| 0 <= i < m.len() && #[trigger] m[i].is_ghost ==> ghost_rows.contains(i as usize)
}

/// The buffer's maps agree with its rows.
pub open spec fn pane_wf(b: PaneBuffer) -> bool {
    indexes_match(b.model@, b.row_to_line@, b.line_to_row@, b.ghost_rows@)
}

/// The maps for a list of rows.
pub fn index_rows(m: &Vec<PaneLineData>) -> (r: (Vec<Option<usize>>, Vec<usize>, Vec<usize>))
    ensures
        indexes_match(m@, r.0@, r.1@, r.2@),
{
    let mut row_to_line: Vec<Option<usize>> = Vec::new();
    let mut line_to_row: Vec<usize> = Vec::new();
    let mut ghost_rows: Vec<usize> = Vec::new();
    let mut nreal: usize = 0;
    let mut i: usize = 0;
    while i < m.len()
        invariant
            i <= m@.len(),
            nreal == reals_before(m@, i as int),
            nreal <= i,
            row_to_line@.len() == i,
            forall|j: int| 0 <= j < i ==> #[trigger] row_to_line@[j] == if m@[j].is_ghost {
                None
            } else {
                Some(reals_before(m@, j) as usize)
            },
            line_to_row@.len() == nreal,
            forall|k: int| 0 <= k < line_to_row@.len() ==> #[trigger] line_to_row@[k] < i && !m@[line_to_row@[k] as int].is_ghost
                && reals_before(m@, line_to_row@[k] as int) == k,
            forall|k: int, j: int| 0 <= k < j < ghost_rows@.len() ==> ghost_rows@[k] < ghost_rows@[j],
            forall|k: int| 0 <= k < ghost_rows@.len() ==> #[trigger] ghost_rows@[k] < i && m@[ghost_rows@[k] as int].is_ghost,
            forall|j: int| 0 <= j < i && #[trigger] m@[j].is_ghost ==> ghost_rows@.contains(j as usize),
        decreases m@.len() - i,
    {
        if m[i].is_ghost {
            row_to_line.push(None);
            let ghost old_g = ghost_rows@;
            ghost_rows.push(i);
            assert forall|j: int| 0 <= j < i + 1 && #[trigger] m@[j].is_ghost implies ghost_rows@.contains(j as usize) by {
                if j < i {
                    let k = choose|k: int| 0 <= k < old_g.len() && old_g[k] == j as usize;
                    assert(ghost_rows@[k] == old_g[k]);
                } else {
                    assert(ghost_rows@[old_g.len() as int] == i);
                }
            }
            assert forall|k: int, j: int| 0 <= k < j < ghost_rows@.len() implies ghost_rows@[k] < ghost_rows@[j] by {
                assert(ghost_rows@[k] == old_g[k]);
                if j < old_g.len() {
                    assert(ghost_rows@[j] == old_g[j]);
                }
            }
        } else {
            row_to_line.push(Some(nreal));
            line_to_row.push(i);
            nreal = nreal + 1;
        }
        i = i + 1;
    }
    (row_to_line, line_to_row, ghost_rows)
}

/// A ghost row of a diff block.
pub open spec fn is_ghost_row(r: PaneLineData, diff_index: i32) -> bool {
    &&& r.is_ghost
    &&& r.line_no@.len() == 0
    &&& r.text@.len() == 0
    &&& r.status == 0
    &&& r.diff_index == diff_index
    &&& r.word_diff@.len() == 0
    &&& !r.is_current_diff && !r.is_search_match && !r.is_selected
    &&& r.highlight == -1
}

/// A real row with the given contents.
pub open spec fn is_real_row(
    r: PaneLineData,
    line_no: Seq<char>,
    text: Seq<char>,
    status: i32,
    diff_index: i32,
    word_diff: Seq<char>,
    highlight: i32,
) -> bool {
    &&& !r.is_ghost
    &&& r.line_no@ == line_no
    &&& r.text@ == text
    &&& r.status == status
    &&& r.diff_index == diff_index
    &&& r.word_diff@ == word_diff
    &&& !r.is_current_diff && !r.is_search_match && !r.is_selected
    &&& r.highlight == highlight
}

/// Creates a ghost row.
pub fn ghost_pane_line(diff_index: i32) -> (r: PaneLineData)
    ensures
        is_ghost_row(r, diff_index),
{
    PaneLineData {
        line_no: String::new(),
        text: String::new(),
        is_ghost: true,
        status: 0,
        diff_index,
        word_diff: String::new(),
        is_current_diff: false,
        is_search_match: false,
        is_selected: false,
        highlight: -1,
    }
}

/// The real lines of a buffer, each followed by a line feed.
pub fn extract_real_lines(buffer: &PaneBuffer) -> (text: String)
    ensures
        text@ == join_lines_nl(real_text_lines(buffer.model@)),
{
    let m = &buffer.model;
    let mut out = String::new();
    let mut i: usize = 0;
    while i < m.len()
        invariant
            i <= m@.len(),
            out@ == join_lines_nl(real_text_lines(m@.take(i as int))),
        decreases m@.len() - i,
    {
        assert(m@.take(i + 1).drop_last() =~= m@.take(i as int));
        assert(m@.take(i + 1).last() == m@[i as int]);
        if !m[i].is_ghost {
            let ghost prev = real_text_lines(m@.take(i as int));
            push_str(&mut out, m[i].text.as_str());
            push_char(&mut out, '\n');
            assert(real_text_lines(m@.take(i + 1)).drop_last() =~= prev);
        }
        i = i + 1;
    }
    assert(m@.take(m@.len() as int) =~= m@);
    out
}

/// Row `i` of `new` is row `i` of `old`, renumbered: real rows show their
/// 1-based line number, ghost rows are unchanged.
pub open spec fn renumbered_row(old: Seq<PaneLineData>, new: Seq<PaneLineData>, i: int) -> bool {
    if old[i].is_ghost {
        new[i] == old[i]
    } else {
        new[i] == PaneLineData { line_no: new[i].line_no, ..old[i] } && new[i].line_no@ == dec(reals_before(old, i) + 1)
    }
}

proof fn lemma_reals_same(a: Seq<PaneLineData>, b: Seq<PaneLineData>, i: int)
    requires
        0 <= i <= a.len(),
        a.len() == b.len(),
        forall|j: int| 0 <= j < a.len() ==> a[j].is_ghost == b[j].is_ghost,
    ensures
        reals_before(a, i) == reals_before(b, i),
    decreases i,
{
    if i > 0 {
        lemma_reals_same(a, b, i - 1);
    }
}

proof fn lemma_reals_bound(m: Seq<PaneLineData>, i: int)
    requires
        0 <= i,
    ensures
        reals_before(m, i) <= i,
    decreases i,
{
    if i > 0 {
        lemma_reals_bound(m, i - 1);
    }
}

/// Renumbers the real lines after rows were inserted, removed or changed,
/// and rebuilds the maps.
pub fn renumber_pane_buffer(buffer: &mut PaneBuffer)
    ensures
        pane_wf(*final(buffer)),
        final(buffer).model@.len() == old(buffer).model@.len(),
        forall|i: int| 0 <= i < old(buffer).model@.len() ==> renumbered_row(old(buffer).model@, final(buffer).model@, i),
{
    let ghost orig = buffer.model@;
    let mut nreal: usize = 0;
    let mut i: usize = 0;
    while i < buffer.model.len()
        invariant
            i <= buffer.model@.len(),
            buffer.model@.len() == orig.len(),
            nreal == reals_before(orig, i as int),
            nreal <= i,
            forall|j: int| 0 <= j < orig.len() ==> buffer.model@[j].is_ghost == orig[j].is_ghost,
            forall|j: int| 0 <= j < i ==> renumbered_row(orig, buffer.model@, j),
            forall|j: int| i <= j < orig.len() ==> buffer.model@[j] == orig[j],
        decreases orig.len() - i,
    {
        let ghost before = buffer.model@;
        if !buffer.model[i].is_ghost {
            let mut n = String::new();
            push_dec(&mut n, (nreal + 1) as u64);
            buffer.model[i].line_no = n;
            assert(buffer.model@ == before.update(i as int, PaneLineData { line_no: buffer.model@[i as int].line_no, ..orig[i as int] }));
            assert(renumbered_row(orig, buffer.model@, i as int));
            nreal = nreal + 1;
        } else {
            assert(buffer.model@[i as int] == orig[i as int]);
            assert(renumbered_row(orig, buffer.model@, i as int));
        }
        assert forall|j: int| 0 <= j < i + 1 implies renumbered_row(orig, buffer.model@, j) by {
            if j < i {
                assert(buffer.model@[j] == before[j]);
                assert(renumbered_row(orig, before, j));
            }
        }
        i = i + 1;
    }
    let (r2l, l2r, g) = index_rows(&buffer.model);
    buffer.row_to_line = r2l;
    buffer.line_to_row = l2r;
    buffer.ghost_rows = g;
}

} // verus!

verus! {

/// Parts joined with a separator character.
pub open spec fn join_with(parts: Seq<Seq<char>>, sep: char) -> Seq<char>
    decreases parts.len(),
{
    if parts.len() == 0 {
        Seq::empty()
    } else if parts.len() == 1 {
        parts[0]
    } else {
        join_with(parts.drop_last(), sep) + seq![sep] + parts.last()
    }
}

/// The word-diff encoding of a line's segments: the segment texts joined
/// with U+0001, where even parts are unchanged and odd parts changed (an empty
/// unchanged part comes first when the first segment is changed).
pub open spec fn word_diff_text(segs: Seq<WordDiffSegment>) -> Seq<char> {
    if segs.len() == 0 {
        Seq::empty()
    } else {
        let texts = segs.map_values(|s: WordDiffSegment| s.text@);
        join_with(if segs[0].changed { seq![Seq::<char>::empty()] + texts } else { texts }, '\u{1}')
    }
}

/// Encodes word-diff segments as one string (see `word_diff_text`).
pub fn build_word_diff_string(segments: &Vec<WordDiffSegment>) -> (s: String)
    ensures
        s@ == word_diff_text(segments@),
{
    if segments.len() == 0 {
        return String::new();
    }
    let ghost texts = segments@.map_values(|s: WordDiffSegment| s.text@);
    let ghost parts = if segments@[0].changed { seq![Seq::<char>::empty()] + texts } else { texts };
    let mut out = String::new();
    let ghost mut count: nat = if segments@[0].changed { 1 } else { 0 };
    assert(parts.take(count as int) =~= (if count == 1 { seq![Seq::<char>::empty()] } else { Seq::<Seq<char>>::empty() }));
    assert(out@ =~= join_with(parts.take(count as int), '\u{1}'));
    let mut i: usize = 0;
    while i < segments.len()
        invariant
            i <= segments@.len(),
            segments@.len() > 0,
            texts == segments@.map_values(|s: WordDiffSegment| s.text@),
            parts == if segments@[0].changed { seq![Seq::<char>::empty()] + texts } else { texts },
            count == i + if segments@[0].changed { 1nat } else { 0nat },
            out@ == join_with(parts.take(count as int), '\u{1}'),
        decreases segments@.len() - i,
    {
        assert(parts[count as int] == segments@[i as int].text@);
        assert(parts.take(count as int + 1).drop_last() =~= parts.take(count as int));
        if i > 0 || segments[0].changed {
            push_char(&mut out, '\u{1}');
        }
        push_str(&mut out, segments[i].text.as_str());
        proof {
            count = count + 1;
        }
        i = i + 1;
    }
    assert(parts.take(count as int) =~= parts);
    out
}

/// How many runs of changed rows start among the first `n` statuses.
pub open spec fn runs_before(st: Seq<LineStatus>, n: int) -> nat
    decreases n,
{
    if n <= 0 {
        0
    } else {
        runs_before(st, n - 1) + if st[n - 1] != LineStatus::Equal && (n - 1 == 0 || st[n - 2] == LineStatus::Equal) {
            1nat
        } else {
            0nat
        }
    }
}

/// The diff block a row belongs to (counted from 0), -1 for an equal row.
pub open spec fn block_of(st: Seq<LineStatus>, i: int) -> i32 {
    if st[i] == LineStatus::Equal { -1i32 } else { (runs_before(st, i + 1) - 1) as i32 }
}

/// The highlight class of line `n` (1-based), -1 when there is none.
pub open spec fn highlight_at(hl: Seq<i32>, n: Option<u32>) -> i32 {
    match n {
        Some(k) => if 1 <= k && k - 1 < hl.len() { hl[k - 1] } else { -1i32 },
        None => -1i32,
    }
}

/// The rows of a two-way diff as the diff engine makes them: equal and
/// modified rows have lines on both sides, added rows only on the right,
/// removed rows only on the left, moved rows on at least one side; line
/// numbers start at 1.
pub open spec fn rows_well_formed(lines: Seq<DiffLine>) -> bool {
    forall|i: int| 0 <= i < lines.len() ==> {
        let l = #[trigger] lines[i];
        &&& (l.left_line_no matches Some(n) ==> n >= 1)
        &&& (l.right_line_no matches Some(n) ==> n >= 1)
        &&& match l.status {
            LineStatus::Equal | LineStatus::Modified => l.left_line_no is Some && l.right_line_no is Some,
            LineStatus::Added => l.left_line_no is None && l.right_line_no is Some,
            LineStatus::Removed => l.left_line_no is Some && l.right_line_no is None,
            LineStatus::Moved => l.left_line_no is Some || l.right_line_no is Some,
        }
    }
}

/// The row shown in one pane (0 = left, else right) for a row of a two-way diff.
pub open spec fn side_row_ok(r: PaneLineData, l: DiffLine, side: int, d: i32, hl: Seq<i32>, tw: nat) -> bool {
    let no = if side == 0 { l.left_line_no } else { l.right_line_no };
    let text = if side == 0 { l.left_text@ } else { l.right_text@ };
    let segs = if side == 0 { l.left_word_segments@ } else { l.right_word_segments@ };
    let both = l.left_line_no is Some && l.right_line_no is Some;
    match no {
        None => is_ghost_row(r, d),
        Some(n) => is_real_row(
            r,
            dec(n as nat),
            tabs_expanded(text, tw),
            line_status_code(l.status),
            d,
            if l.status != LineStatus::Equal && both { word_diff_text(segs) } else { Seq::empty() },
            highlight_at(hl, no),
        ),
    }
}

pub fn highlight_of(hl: &[i32], n: Option<u32>) -> (h: i32)
    ensures
        h == highlight_at(hl@, n),
{
    match n {
        Some(k) => if 1 <= k && ((k - 1) as usize) < hl.len() { hl[(k - 1) as usize] } else { -1 },
        None => -1,
    }
}

fn real_row(no: u32, text: String, status: i32, d: i32, word_diff: String, highlight: i32) -> (r: PaneLineData)
    ensures
        is_real_row(r, dec(no as nat), text@, status, d, word_diff@, highlight),
{
    let mut line_no = String::new();
    push_dec(&mut line_no, no as u64);
    assert(line_no@ =~= dec(no as nat));
    PaneLineData {
        line_no,
        text,
        is_ghost: false,
        status,
        diff_index: d,
        word_diff,
        is_current_diff: false,
        is_search_match: false,
        is_selected: false,
        highlight,
    }
}

/// The row one pane shows for a row of a two-way diff.
fn side_row(l: &DiffLine, side: u8, d: i32, hl: &[i32], tab_width: usize) -> (r: PaneLineData)
    ensures
        side_row_ok(r, *l, if side == 0 { 0int } else { 1int }, d, hl@, tab_width as nat),
{
    let no = if side == 0 { l.left_line_no } else { l.right_line_no };
    match no {
        None => ghost_pane_line(d),
        Some(n) => {
            let text = expand_tabs(if side == 0 { l.left_text.as_str() } else { l.right_text.as_str() }, tab_width);
            let both = l.left_line_no.is_some() && l.right_line_no.is_some();
            let word_diff = if l.status != LineStatus::Equal && both {
                build_word_diff_string(if side == 0 { &l.left_word_segments } else { &l.right_word_segments })
            } else {
                String::new()
            };
            real_row(n, text, l.status.as_i32(), d, word_diff, highlight_of(hl, no))
        },
    }
}

/// The block index of each row: -1 for equal rows, else the number of the
/// run of changed rows it belongs to.
pub fn block_indices(lines: &Vec<DiffLine>) -> (idx: Vec<i32>)
    requires
        lines@.len() < i32::MAX,
    ensures
        idx@.len() == lines@.len(),
        forall|i: int| 0 <= i < lines@.len() ==> #[trigger] idx@[i] == block_of(crate::models::statuses(lines@), i),
{
    let ghost st = crate::models::statuses(lines@);
    let mut idx: Vec<i32> = Vec::new();
    let mut current: i32 = -1;
    let mut in_diff = false;
    let mut i: usize = 0;
    while i < lines.len()
        invariant
            i <= lines@.len(),
            lines@.len() < i32::MAX,
            st == crate::models::statuses(lines@),
            st.len() == lines@.len(),
            current == runs_before(st, i as int) - 1,
            runs_before(st, i as int) <= i,
            in_diff == (i > 0 && st[i - 1] != LineStatus::Equal),
            idx@.len() == i,
            forall|j: int| 0 <= j < i ==> #[trigger] idx@[j] == block_of(st, j),
        decreases lines@.len() - i,
    {
        assert(st[i as int] == lines@[i as int].status);
        if lines[i].status != LineStatus::Equal {
            if !in_diff {
                current = current + 1;
                in_diff = true;
            }
            idx.push(current);
        } else {
            in_diff = false;
            idx.push(-1);
        }
        i = i + 1;
    }
    idx
}

/// Builds the left and right buffers of a two-way diff; both have one row
/// per diff row, a ghost row where a side has no line.
pub fn build_pane_buffers_2way(
    result: &DiffResult,
    left_highlights: &[i32],
    right_highlights: &[i32],
    tab_width: usize,
) -> (bufs: (PaneBuffer, PaneBuffer))
    requires
        rows_well_formed(result.lines@),
        result.lines@.len() < i32::MAX,
    ensures
        pane_wf(bufs.0),
        pane_wf(bufs.1),
        bufs.0.model@.len() == result.lines@.len(),
        bufs.1.model@.len() == result.lines@.len(),
        forall|i: int| 0 <= i < result.lines@.len() ==> side_row_ok(
            #[trigger] bufs.0.model@[i],
            result.lines@[i],
            0,
            block_of(crate::models::statuses(result.lines@), i),
            left_highlights@,
            tab_width as nat,
        ),
        forall|i: int| 0 <= i < result.lines@.len() ==> side_row_ok(
            #[trigger] bufs.1.model@[i],
            result.lines@[i],
            1,
            block_of(crate::models::statuses(result.lines@), i),
            right_highlights@,
            tab_width as nat,
        ),
{
    let lines = &result.lines;
    let idx = block_indices(lines);
    let mut left_rows: Vec<PaneLineData> = Vec::new();
    let mut right_rows: Vec<PaneLineData> = Vec::new();
    let mut i: usize = 0;
    while i < lines.len()
        invariant
            i <= lines@.len(),
            idx@.len() == lines@.len(),
            forall|j: int| 0 <= j < lines@.len() ==> #[trigger] idx@[j] == block_of(crate::models::statuses(lines@), j),
            left_rows@.len() == i,
            right_rows@.len() == i,
            forall|j: int| 0 <= j < i ==> side_row_ok(#[trigger] left_rows@[j], lines@[j], 0, idx@[j], left_highlights@, tab_width as nat),
            forall|j: int| 0 <= j < i ==> side_row_ok(#[trigger] right_rows@[j], lines@[j], 1, idx@[j], right_highlights@, tab_width as nat),
        decreases lines@.len() - i,
    {
        let d = idx[i];
        left_rows.push(side_row(&lines[i], 0, d, left_highlights, tab_width));
        right_rows.push(side_row(&lines[i], 1, d, right_highlights, tab_width));
        i = i + 1;
    }
    let (l2, l1, l0) = index_rows(&left_rows);
    let (r2, r1, r0) = index_rows(&right_rows);
    (
        PaneBuffer { model: left_rows, row_to_line: l2, line_to_row: l1, ghost_rows: l0 },
        PaneBuffer { model: right_rows, row_to_line: r2, line_to_row: r1, ghost_rows: r0 },
    )
}

} // verus!

verus! {

/// The (tab-expanded) texts of the lines one side (0 = left, else right) of
/// a two-way diff has, top to bottom.
pub open spec fn side_texts(lines: Seq<DiffLine>, side: int, tw: nat) -> Seq<Seq<char>>
    decreases lines.len(),
{
    if lines.len() == 0 {
        Seq::empty()
    } else {
        let l = lines.last();
        let no = if side == 0 { l.left_line_no } else { l.right_line_no };
        let text = if side == 0 { l.left_text@ } else { l.right_text@ };
        if no is Some {
            side_texts(lines.drop_last(), side, tw).push(tabs_expanded(text, tw))
        } else {
            side_texts(lines.drop_last(), side, tw)
        }
    }
}

/// A pane built from a two-way diff holds, as its real lines, exactly the
/// lines its side of the diff has, in order (tabs expanded).
pub proof fn lemma_built_pane_real_lines(
    rows: Seq<PaneLineData>,
    lines: Seq<DiffLine>,
    side: int,
    blocks: Seq<i32>,
    hl: Seq<i32>,
    tw: nat,
)
    requires
        rows.len() == lines.len(),
        blocks.len() == lines.len(),
        forall|i: int| 0 <= i < lines.len() ==> side_row_ok(#[trigger] rows[i], lines[i], side, blocks[i], hl, tw),
    ensures
        real_text_lines(rows) == side_texts(lines, side, tw),
    decreases lines.len(),
{
    if lines.len() > 0 {
        let n = lines.len() - 1;
        assert(side_row_ok(rows[n], lines[n], side, blocks[n], hl, tw));
        lemma_built_pane_real_lines(rows.drop_last(), lines.drop_last(), side, blocks.drop_last(), hl, tw);
    }
}

} // verus!

verus! {

/// The statuses of a three-way diff's rows.
pub open spec fn statuses3(lines: Seq<ThreeWayLine>) -> Seq<ThreeWayStatus> {
    lines.map_values(|l: ThreeWayLine| l.status)
}

/// How many runs of non-equal rows start among the first `n` statuses.
pub open spec fn runs3_before(st: Seq<ThreeWayStatus>, n: int) -> nat
    decreases n,
{
    if n <= 0 {
        0
    } else {
        runs3_before(st, n - 1) + if st[n - 1] != ThreeWayStatus::Equal && (n - 1 == 0 || st[n - 2] == ThreeWayStatus::Equal) {
            1nat
        } else {
            0nat
        }
    }
}

/// The conflict block a row belongs to (counted from 0), -1 for an equal row.
pub open spec fn block3_of(st: Seq<ThreeWayStatus>, i: int) -> i32 {
    if st[i] == ThreeWayStatus::Equal { -1i32 } else { (runs3_before(st, i + 1) - 1) as i32 }
}

/// The row one pane (0 = left, 1 = middle/base, 2 = right) shows for a row
/// of a three-way diff.
pub open spec fn pane3_row_ok(r: PaneLineData, l: ThreeWayLine, pane: int, d: i32) -> bool {
    match pane_no(l, pane) {
        None => is_ghost_row(r, d),
        Some(n) => is_real_row(r, dec(n as nat), pane_text(l, pane), status_code(l.status), d, Seq::empty(), -1i32),
    }
}

pub fn block3_indices(lines: &Vec<ThreeWayLine>) -> (idx: Vec<i32>)
    requires
        lines@.len() < i32::MAX,
    ensures
        idx@.len() == lines@.len(),
        forall|i: int| 0 <= i < lines@.len() ==> #[trigger] idx@[i] == block3_of(statuses3(lines@), i),
{
    let ghost st = statuses3(lines@);
    let mut idx: Vec<i32> = Vec::new();
    let mut current: i32 = -1;
    let mut in_diff = false;
    let mut i: usize = 0;
    while i < lines.len()
        invariant
            i <= lines@.len(),
            lines@.len() < i32::MAX,
            st == statuses3(lines@),
            st.len() == lines@.len(),
            current == runs3_before(st, i as int) - 1,
            runs3_before(st, i as int) <= i,
            in_diff == (i > 0 && st[i - 1] != ThreeWayStatus::Equal),
            idx@.len() == i,
            forall|j: int| 0 <= j < i ==> #[trigger] idx@[j] == block3_of(st, j),
        decreases lines@.len() - i,
    {
        assert(st[i as int] == lines@[i as int].status);
        if lines[i].status != ThreeWayStatus::Equal {
            if !in_diff {
                current = current + 1;
                in_diff = true;
            }
            idx.push(current);
        } else {
            in_diff = false;
            idx.push(-1);
        }
        i = i + 1;
    }
    idx
}

fn pane3_row(l: &ThreeWayLine, pane: u8, d: i32) -> (r: PaneLineData)
    ensures
        pane3_row_ok(r, *l, if pane == 0 { 0int } else if pane == 1 { 1int } else { 2int }, d),
{
    let (no, text) = if pane == 0 {
        (l.left_line_no, &l.left_text)
    } else if pane == 1 {
        (l.base_line_no, &l.base_text)
    } else {
        (l.right_line_no, &l.right_text)
    };
    match no {
        None => ghost_pane_line(d),
        Some(n) => {
            let w = String::new();
            assert(w@ =~= Seq::<char>::empty());
            real_row(n, str_to_string(text.as_str()), l.status.as_i32(), d, w, -1)
        },
    }
}

/// Builds the left, middle (base) and right buffers of a three-way diff, one
/// row per diff row, a ghost row where a pane has no line.
pub fn build_pane_buffers_3way(result: &ThreeWayResult) -> (bufs: (PaneBuffer, PaneBuffer, PaneBuffer))
    requires
        result.lines@.len() < i32::MAX,
    ensures
        pane_wf(bufs.0),
        pane_wf(bufs.1),
        pane_wf(bufs.2),
        bufs.0.model@.len() == result.lines@.len(),
        bufs.1.model@.len() == result.lines@.len(),
        bufs.2.model@.len() == result.lines@.len(),
        forall|i: int| 0 <= i < result.lines@.len() ==> pane3_row_ok(#[trigger] bufs.0.model@[i], result.lines@[i], 0, block3_of(statuses3(result.lines@), i)),
        forall|i: int| 0 <= i < result.lines@.len() ==> pane3_row_ok(#[trigger] bufs.1.model@[i], result.lines@[i], 1, block3_of(statuses3(result.lines@), i)),
        forall|i: int| 0 <= i < result.lines@.len() ==> pane3_row_ok(#[trigger] bufs.2.model@[i], result.lines@[i], 2, block3_of(statuses3(result.lines@), i)),
{
    let lines = &result.lines;
    let idx = block3_indices(lines);
    let mut left_rows: Vec<PaneLineData> = Vec::new();
    let mut middle_rows: Vec<PaneLineData> = Vec::new();
    let mut right_rows: Vec<PaneLineData> = Vec::new();
    let mut i: usize = 0;
    while i < lines.len()
        invariant
            i <= lines@.len(),
            idx@.len() == lines@.len(),
            forall|j: int| 0 <= j < lines@.len() ==> #[trigger] idx@[j] == block3_of(statuses3(lines@), j),
            left_rows@.len() == i,
            middle_rows@.len() == i,
            right_rows@.len() == i,
            forall|j: int| 0 <= j < i ==> pane3_row_ok(#[trigger] left_rows@[j], lines@[j], 0, idx@[j]),
            forall|j: int| 0 <= j < i ==> pane3_row_ok(#[trigger] middle_rows@[j], lines@[j], 1, idx@[j]),
            forall|j: int| 0 <= j < i ==> pane3_row_ok(#[trigger] right_rows@[j], lines@[j], 2, idx@[j]),
        decreases lines@.len() - i,
    {
        let d = idx[i];
        left_rows.push(pane3_row(&lines[i], 0, d));
        middle_rows.push(pane3_row(&lines[i], 1, d));
        right_rows.push(pane3_row(&lines[i], 2, d));
        i = i + 1;
    }
    let (l2, l1, l0) = index_rows(&left_rows);
    let (m2, m1, m0) = index_rows(&middle_rows);
    let (r2, r1, r0) = index_rows(&right_rows);
    (
        PaneBuffer { model: left_rows, row_to_line: l2, line_to_row: l1, ghost_rows: l0 },
        PaneBuffer { model: middle_rows, row_to_line: m2, line_to_row: m1, ghost_rows: m0 },
        PaneBuffer { model: right_rows, row_to_line: r2, line_to_row: r1, ghost_rows: r0 },
    )
}

/// A pane built from a three-way diff holds, as its real lines, exactly that
/// pane's lines of the diff, in order.
pub proof fn lemma_built_pane3_real_lines(rows: Seq<PaneLineData>, lines: Seq<ThreeWayLine>, pane: int, blocks: Seq<i32>)
    requires
        rows.len() == lines.len(),
        blocks.len() == lines.len(),
        forall|i: int| 0 <= i < lines.len() ==> pane3_row_ok(#[trigger] rows[i], lines[i], pane, blocks[i]),
    ensures
        real_text_lines(rows) == pane_lines(lines, pane),
    decreases lines.len(),
{
    if lines.len() > 0 {
        let n = lines.len() - 1;
        assert(pane3_row_ok(rows[n], lines[n], pane, blocks[n]));
        lemma_built_pane3_real_lines(rows.drop_last(), lines.drop_last(), pane, blocks.drop_last());
    }
}

} // verus!

verus! {

proof fn lemma_real_lines_append(a: Seq<PaneLineData>, b: Seq<PaneLineData>)
    ensures
        real_text_lines(a + b) == real_text_lines(a) + real_text_lines(b),
    decreases b.len(),
{
    if b.len() == 0 {
        assert(a + b =~= a);
        assert(real_text_lines(b) =~= Seq::<Seq<char>>::empty());
        assert(real_text_lines(a) + real_text_lines(b) =~= real_text_lines(a));
    } else {
        lemma_real_lines_append(a, b.drop_last());
        assert((a + b).drop_last() =~= a + b.drop_last());
        assert((a + b).last() == b.last());
        if !b.last().is_ghost {
            assert(real_text_lines(a) + real_text_lines(b) =~= (real_text_lines(a) + real_text_lines(b.drop_last())).push(b.last().text@));
        }
    }
}

proof fn lemma_reals_count(m: Seq<PaneLineData>, i: int)
    requires
        0 <= i <= m.len(),
    ensures
        reals_before(m, i) == real_text_lines(m.take(i)).len(),
    decreases i,
{
    if i > 0 {
        lemma_reals_count(m, i - 1);
        assert(m.take(i).drop_last() =~= m.take(i - 1));
        assert(m.take(i).last() == m[i - 1]);
    }
}

/// Same ghost rows and the same texts on the real rows.
pub open spec fn same_lines(a: Seq<PaneLineData>, b: Seq<PaneLineData>) -> bool {
    &&& a.len() == b.len()
    &&& forall|i: int| 0 <= i < a.len() ==> (#[trigger] a[i]).is_ghost == b[i].is_ghost && (!a[i].is_ghost ==> b[i].text@ == a[i].text@)
}

proof fn lemma_same_lines(a: Seq<PaneLineData>, b: Seq<PaneLineData>)
    requires
        same_lines(a, b),
    ensures
        real_text_lines(a) == real_text_lines(b),
    decreases a.len(),
{
    if a.len() > 0 {
        let n = a.len() - 1;
        assert(a[n].is_ghost == b[n].is_ghost);
        assert(same_lines(a.drop_last(), b.drop_last())) by {
            assert forall|i: int| 0 <= i < a.drop_last().len() implies (#[trigger] a.drop_last()[i]).is_ghost == b.drop_last()[i].is_ghost
                && (!a.drop_last()[i].is_ghost ==> b.drop_last()[i].text@ == a.drop_last()[i].text@) by {
                assert(a.drop_last()[i] == a[i]);
                assert(b.drop_last()[i] == b[i]);
            }
        }
        lemma_same_lines(a.drop_last(), b.drop_last());
    }
}

/// Renumbering keeps the real lines.
pub proof fn lemma_renumber_keeps_lines(old: Seq<PaneLineData>, new: Seq<PaneLineData>)
    requires
        old.len() == new.len(),
        forall|i: int| 0 <= i < old.len() ==> renumbered_row(old, new, i),
    ensures
        real_text_lines(new) == real_text_lines(old),
{
    assert(same_lines(old, new)) by {
        assert forall|i: int| 0 <= i < old.len() implies (#[trigger] old[i]).is_ghost == new[i].is_ghost
            && (!old[i].is_ghost ==> new[i].text@ == old[i].text@) by {
            assert(renumbered_row(old, new, i));
        }
    }
    lemma_same_lines(old, new);
}

proof fn lemma_split_at(m: Seq<PaneLineData>, i: int)
    requires
        0 <= i < m.len(),
    ensures
        real_text_lines(m) == real_text_lines(m.take(i)) + real_text_lines(seq![m[i]]) + real_text_lines(m.skip(i + 1)),
{
    assert(m =~= m.take(i) + seq![m[i]] + m.skip(i + 1));
    lemma_real_lines_append(m.take(i) + seq![m[i]], m.skip(i + 1));
    lemma_real_lines_append(m.take(i), seq![m[i]]);
}

proof fn lemma_single(r: PaneLineData)
    ensures
        real_text_lines(seq![r]) == if r.is_ghost { Seq::<Seq<char>>::empty() } else { seq![r.text@] },
{
    let s = seq![r];
    assert(s.drop_last() =~= Seq::<PaneLineData>::empty());
    assert(s.last() == r);
    assert(real_text_lines(s.drop_last()) =~= Seq::<Seq<char>>::empty());
    if !r.is_ghost {
        assert(Seq::<Seq<char>>::empty().push(r.text@) =~= seq![r.text@]);
    }
}

/// Turning a real row into a ghost drops exactly its line.
pub proof fn lemma_ghosting_drops_line(m: Seq<PaneLineData>, i: int, g: PaneLineData)
    requires
        0 <= i < m.len(),
        !m[i].is_ghost,
        g.is_ghost,
    ensures
        real_text_lines(m.update(i, g)) == real_text_lines(m).remove(reals_before(m, i) as int),
{
    let u = m.update(i, g);
    lemma_split_at(m, i);
    lemma_split_at(u, i);
    assert(u.take(i) =~= m.take(i));
    assert(u.skip(i + 1) =~= m.skip(i + 1));
    lemma_reals_count(m, i);
    lemma_single(m[i]);
    lemma_single(g);
    let a = real_text_lines(m.take(i));
    let c = real_text_lines(m.skip(i + 1));
    assert((a + seq![m[i].text@] + c).remove(a.len() as int) =~= a + Seq::<Seq<char>>::empty() + c);
}

/// Removing a row drops its line if it is real and changes no line if it is a ghost.
pub proof fn lemma_removing_row(m: Seq<PaneLineData>, i: int)
    requires
        0 <= i < m.len(),
    ensures
        m[i].is_ghost ==> real_text_lines(m.remove(i)) == real_text_lines(m),
        !m[i].is_ghost ==> real_text_lines(m.remove(i)) == real_text_lines(m).remove(reals_before(m, i) as int),
{
    let r = m.remove(i);
    lemma_split_at(m, i);
    assert(r =~= m.take(i) + m.skip(i + 1));
    lemma_real_lines_append(m.take(i), m.skip(i + 1));
    lemma_reals_count(m, i);
    let a = real_text_lines(m.take(i));
    let c = real_text_lines(m.skip(i + 1));
    if m[i].is_ghost {
        lemma_single(m[i]);
        assert(a + Seq::<Seq<char>>::empty() + c =~= a + c);
    } else {
        lemma_single(m[i]);
        assert((a + seq![m[i].text@] + c).remove(a.len() as int) =~= a + c);
    }
}

/// Inserting a row adds its line, after the real lines above it, when it is
/// real, and changes no line when it is a ghost.
pub proof fn lemma_inserting_row(m: Seq<PaneLineData>, i: int, row: PaneLineData)
    requires
        0 <= i <= m.len(),
    ensures
        row.is_ghost ==> real_text_lines(m.insert(i, row)) == real_text_lines(m),
        !row.is_ghost ==> real_text_lines(m.insert(i, row)) == real_text_lines(m).insert(reals_before(m, i) as int, row.text@),
{
    let n = m.insert(i, row);
    assert(n =~= m.take(i) + seq![row] + m.skip(i));
    assert(m =~= m.take(i) + m.skip(i));
    lemma_real_lines_append(m.take(i) + seq![row], m.skip(i));
    lemma_real_lines_append(m.take(i), seq![row]);
    lemma_real_lines_append(m.take(i), m.skip(i));
    lemma_reals_count(m, i);
    lemma_single(row);
    let a = real_text_lines(m.take(i));
    let c = real_text_lines(m.skip(i));
    if row.is_ghost {
        assert(a + Seq::<Seq<char>>::empty() + c =~= a + c);
    } else {
        assert((a + c).insert(a.len() as int, row.text@) =~= a + seq![row.text@] + c);
    }
}

/// What deleting an empty row does to its pane and the aligned row of the sibling pane.
#[derive(Debug, Clone, Copy, PartialEq, Eq, Structural)]
pub enum LineDeletion {
    /// The sibling row is also a ghost: drop the row from both panes.
    RemoveBoth,
    /// The sibling row is a real line: only turn the target row into a ghost.
    GhostTarget,
}

/// What deleting row `idx` of the target should do: nothing (`None`) when
/// the row is missing, a ghost, not empty, or the pane's last real line, or
/// when the sibling has no such row; else depending on the sibling's row.
pub open spec fn planned_deletion(t: Seq<PaneLineData>, t_lines: nat, o: Seq<PaneLineData>, idx: int) -> Option<LineDeletion> {
    if idx >= t.len() {
        None
    } else if t[idx].is_ghost || t[idx].text@.len() > 0 {
        None
    } else if t_lines <= 1 {
        None
    } else if idx >= o.len() {
        None
    } else if o[idx].is_ghost {
        Some(LineDeletion::RemoveBoth)
    } else {
        Some(LineDeletion::GhostTarget)
    }
}

/// Decides what deleting the row at `idx` of `target` should do.
pub fn plan_line_deletion(target: &PaneBuffer, other: &PaneBuffer, idx: usize) -> (r: Option<LineDeletion>)
    ensures
        r == planned_deletion(target.model@, target.line_to_row@.len(), other.model@, idx as int),
{
    if idx >= target.model.len() {
        return None;
    }
    let row = &target.model[idx];
    if row.is_ghost || !row.text.as_str().is_empty() {
        return None;
    }
    if target.line_to_row.len() <= 1 {
        return None;
    }
    if idx >= other.model.len() {
        return None;
    }
    Some(if other.model[idx].is_ghost { LineDeletion::RemoveBoth } else { LineDeletion::GhostTarget })
}

/// The rows of `new` are `pre` renumbered.
pub open spec fn renumbered_from(pre: Seq<PaneLineData>, new: Seq<PaneLineData>) -> bool {
    &&& new.len() == pre.len()
    &&& forall|i: int| 0 <= i < pre.len() ==> renumbered_row(pre, new, i)
}

/// Applies a planned deletion and renumbers both panes.
pub fn apply_line_deletion(target: &mut PaneBuffer, other: &mut PaneBuffer, idx: usize, deletion: LineDeletion)
    requires
        idx < old(target).model@.len(),
        deletion == LineDeletion::RemoveBoth ==> idx < old(other).model@.len(),
    ensures
        pane_wf(*final(target)),
        pane_wf(*final(other)),
        deletion == LineDeletion::RemoveBoth ==> renumbered_from(old(target).model@.remove(idx as int), final(target).model@)
            && renumbered_from(old(other).model@.remove(idx as int), final(other).model@),
        deletion == LineDeletion::GhostTarget ==> exists|g: PaneLineData| {
            &&& is_ghost_row(g, old(target).model@[idx as int].diff_index)
            &&& renumbered_from(old(target).model@.update(idx as int, g), final(target).model@)
        } && renumbered_from(old(other).model@, final(other).model@),
{
    match deletion {
        LineDeletion::RemoveBoth => {
            target.model.remove(idx);
            other.model.remove(idx);
        },
        LineDeletion::GhostTarget => {
            let d = target.model[idx].diff_index;
            let g = ghost_pane_line(d);
            target.model.set(idx, g);
        },
    }
    renumber_pane_buffer(target);
    renumber_pane_buffer(other);
}

/// Turns the ghost row at `idx` into a real line and renumbers; false (and
/// no change) when the row is missing or already real.
pub fn materialize_ghost(buffer: &mut PaneBuffer, idx: usize) -> (done: bool)
    ensures
        done == (idx < old(buffer).model@.len() && old(buffer).model@[idx as int].is_ghost),
        done ==> pane_wf(*final(buffer)) && renumbered_from(
            old(buffer).model@.update(idx as int, PaneLineData { is_ghost: false, ..old(buffer).model@[idx as int] }),
            final(buffer).model@,
        ),
        !done ==> *final(buffer) == *old(buffer),
{
    if idx >= buffer.model.len() {
        return false;
    }
    if !buffer.model[idx].is_ghost {
        return false;
    }
    buffer.model[idx].is_ghost = false;
    renumber_pane_buffer(buffer);
    true
}

/// Sets the text of one row; nothing happens without a buffer or such a row.
pub fn sync_pane_row_text(buffer: &mut Option<PaneBuffer>, row_idx: usize, new_text: &str)
    ensures
        match (*old(buffer), *final(buffer)) {
            (Some(b), Some(n)) => if row_idx < b.model@.len() {
                n.model@ == b.model@.update(row_idx as int, PaneLineData { text: n.model@[row_idx as int].text, ..b.model@[row_idx as int] })
                    && n.model@[row_idx as int].text@ == new_text@ && n.row_to_line == b.row_to_line
                    && n.line_to_row == b.line_to_row && n.ghost_rows == b.ghost_rows
            } else {
                n == b
            },
            (None, None) => true,
            _ => false,
        },
{
    match buffer {
        Some(b) => {
            if row_idx < b.model.len() {
                b.model[row_idx].text = str_to_string(new_text);
            }
        },
        None => {},
    }
}

} // verus!

verus! {

/// Deleting an empty row whose sibling row is a real line (the ghost-target
/// case) keeps every line of the sibling pane and removes exactly that one
/// line from the target pane.
pub proof fn lemma_ghost_target_deletion(
    old_target: Seq<PaneLineData>,
    new_target: Seq<PaneLineData>,
    old_other: Seq<PaneLineData>,
    new_other: Seq<PaneLineData>,
    idx: int,
    g: PaneLineData,
)
    requires
        0 <= idx < old_target.len(),
        !old_target[idx].is_ghost,
        g.is_ghost,
        renumbered_from(old_target.update(idx, g), new_target),
        renumbered_from(old_other, new_other),
    ensures
        real_text_lines(new_other) == real_text_lines(old_other),
        real_text_lines(new_target) == real_text_lines(old_target).remove(reals_before(old_target, idx) as int),
{
    lemma_renumber_keeps_lines(old_other, new_other);
    lemma_renumber_keeps_lines(old_target.update(idx, g), new_target);
    lemma_ghosting_drops_line(old_target, idx, g);
}

/// Deleting an empty row whose sibling row is a ghost removes the row from
/// both panes: the target loses exactly that line, the sibling keeps all of its lines.
pub proof fn lemma_remove_both_deletion(
    old_target: Seq<PaneLineData>,
    new_target: Seq<PaneLineData>,
    old_other: Seq<PaneLineData>,
    new_other: Seq<PaneLineData>,
    idx: int,
)
    requires
        0 <= idx < old_target.len(),
        idx < old_other.len(),
        !old_target[idx].is_ghost,
        old_other[idx].is_ghost,
        renumbered_from(old_target.remove(idx), new_target),
        renumbered_from(old_other.remove(idx), new_other),
    ensures
        new_target.len() == old_target.len() - 1,
        new_other.len() == old_other.len() - 1,
        real_text_lines(new_other) == real_text_lines(old_other),
        real_text_lines(new_target) == real_text_lines(old_target).remove(reals_before(old_target, idx) as int),
{
    lemma_renumber_keeps_lines(old_other.remove(idx), new_other);
    lemma_renumber_keeps_lines(old_target.remove(idx), new_target);
    lemma_removing_row(old_target, idx);
    lemma_removing_row(old_other, idx);
}

} // verus!

verus! {

proof fn lemma_reals_prefix(a: Seq<PaneLineData>, b: Seq<PaneLineData>, i: int)
    requires
        0 <= i <= a.len(),
        i <= b.len(),
        a.take(i) == b.take(i),
    ensures
        reals_before(a, i) == reals_before(b, i),
{
    lemma_reals_count(a, i);
    lemma_reals_count(b, i);
}

proof fn lemma_reals_mono(m: Seq<PaneLineData>, i: int, j: int)
    requires
        0 <= i <= j,
    ensures
        reals_before(m, i) <= reals_before(m, j),
    decreases j - i,
{
    if i < j {
        lemma_reals_mono(m, i, j - 1);
    }
}

/// Inserting an empty line and then deleting it again gives back the lines
/// of both panes: the deletion plan drops the inserted row and its ghost
/// from both panes (when the pane had a real line before, so the inserted
/// one is not its last).
pub proof fn lemma_insert_then_delete_restores(
    old_target: Seq<PaneLineData>,
    mid_target: Seq<PaneLineData>,
    new_target: Seq<PaneLineData>,
    old_other: Seq<PaneLineData>,
    mid_other: Seq<PaneLineData>,
    new_other: Seq<PaneLineData>,
    at: int,
    r: PaneLineData,
    g: PaneLineData,
)
    requires
        0 <= at <= old_target.len(),
        at <= old_other.len(),
        !r.is_ghost,
        r.text@.len() == 0,
        g.is_ghost,
        reals_before(old_target, old_target.len() as int) >= 1,
        renumbered_from(old_target.insert(at, r), mid_target),
        renumbered_from(old_other.insert(at, g), mid_other),
        renumbered_from(mid_target.remove(at), new_target),
        renumbered_from(mid_other.remove(at), new_other),
    ensures
        planned_deletion(mid_target, reals_before(mid_target, mid_target.len() as int), mid_other, at)
            == Some(LineDeletion::RemoveBoth),
        real_text_lines(new_target) == real_text_lines(old_target),
        real_text_lines(new_other) == real_text_lines(old_other),
{
    let it = old_target.insert(at, r);
    let io = old_other.insert(at, g);
    assert(renumbered_row(it, mid_target, at));
    assert(renumbered_row(io, mid_other, at));
    assert(it[at] == r);
    assert(io[at] == g);
    // the inserted row is real, empty and not the pane's only line
    lemma_renumber_keeps_lines(it, mid_target);
    lemma_inserting_row(old_target, at, r);
    lemma_reals_mono(old_target, at, old_target.len() as int);
    lemma_reals_count(mid_target, mid_target.len() as int);
    lemma_reals_count(old_target, old_target.len() as int);
    assert(mid_target.take(mid_target.len() as int) =~= mid_target);
    assert(old_target.take(old_target.len() as int) =~= old_target);
    assert(reals_before(mid_target, mid_target.len() as int) > 1);
    // removing it undoes the insertion
    lemma_removing_row(mid_target, at);
    lemma_removing_row(mid_other, at);
    lemma_renumber_keeps_lines(mid_target.remove(at), new_target);
    lemma_renumber_keeps_lines(mid_other.remove(at), new_other);
    lemma_renumber_keeps_lines(io, mid_other);
    lemma_inserting_row(old_other, at, g);
    assert forall|j: int| 0 <= j < it.len() implies it[j].is_ghost == mid_target[j].is_ghost by {
        assert(renumbered_row(it, mid_target, j));
    }
    lemma_reals_same(mid_target, it, at);
    assert(it.take(at) =~= old_target.take(at));
    lemma_reals_prefix(it, old_target, at);
    let base = real_text_lines(old_target);
    let k = reals_before(old_target, at) as int;
    lemma_reals_count(old_target, at);
    assert(base.insert(k, r.text@).remove(k) =~= base);
}

} // verus!
