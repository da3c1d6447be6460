//! Rows of the combined diff view, the texts rebuilt from them, and diff statistics.
use vstd::prelude::*;
use crate::text::{push_char, push_str, str_chars, str_to_string, join_lines_nl, string_from_range};
use crate::numfmt::{dec, push_dec};
use crate::models::{DiffLine, DiffResult, LineStatus, line_status_code, statuses};
use crate::three_way::{ThreeWayLine, ThreeWayResult, status_code, pane_lines};
use crate::view::{expand_tabs, tabs_expanded};
use crate::pane_buffer::{
    block_indices, block_of, block3_indices, block3_of, statuses3, highlight_at, highlight_of,
    build_word_diff_string, word_diff_text, join_with,
};
use crate::export::no_text;

verus! {

/// One row of the combined two-way diff view.
#[derive(Debug, Clone)]
pub struct DiffLineData {
    pub left_line_no: String,
    pub right_line_no: String,
    pub left_text: String,
    pub right_text: String,
    pub status: i32,
    pub is_current_diff: bool,
    pub diff_index: i32,
    pub left_highlight: i32,
    pub right_highlight: i32,
    pub left_word_diff: String,
    pub right_word_diff: String,
    pub is_search_match: bool,
    pub is_selected: bool,
}

/// The view row of a diff row.
pub open spec fn line_data_ok(d: DiffLineData, l: DiffLine, block: i32, lh: Seq<i32>, rh: Seq<i32>, tw: nat) -> bool {
    &&& d.left_line_no@ == no_text(l.left_line_no)
    &&& d.right_line_no@ == no_text(l.right_line_no)
    &&& d.left_text@ == tabs_expanded(l.left_text@, tw)
    &&& d.right_text@ == tabs_expanded(l.right_text@, tw)
    &&& d.status == line_status_code(l.status)
    &&& !d.is_current_diff && !d.is_search_match && !d.is_selected
    &&& d.diff_index == block
    &&& d.left_highlight == highlight_at(lh, l.left_line_no)
    &&& d.right_highlight == highlight_at(rh, l.right_line_no)
    &&& d.left_word_diff@ == word_diff_text(l.left_word_segments@)
    &&& d.right_word_diff@ == word_diff_text(l.right_word_segments@)
}

fn no_string(n: Option<u32>) -> (s: String)
    ensures
        s@ == no_text(n),
{
    let mut s = String::new();
    match n {
        Some(k) => push_dec(&mut s, k as u64),
        None => {},
    }
    assert(s@ =~= no_text(n));
    s
}

/// The view rows of a two-way diff: line numbers, tab-expanded texts,
/// status, block index, highlight classes and word-diff strings.
pub fn build_diff_line_data(result: &DiffResult, left_highlights: &[i32], right_highlights: &[i32], tab_width: usize) -> (rows: Vec<DiffLineData>)
    requires
        result.lines@.len() < i32::MAX,
    ensures
        rows@.len() == result.lines@.len(),
        forall|i: int| 0 <= i < rows@.len() ==> line_data_ok(
            #[trigger] rows@[i],
            result.lines@[i],
            block_of(statuses(result.lines@), i),
            left_highlights@,
            right_highlights@,
            tab_width as nat,
        ),
{
    let lines = &result.lines;
    let idx = block_indices(lines);
    let mut rows: Vec<DiffLineData> = Vec::new();
    let mut i: usize = 0;
    while i < lines.len()
        invariant
            i <= lines@.len(),
            idx@.len() == lines@.len(),
            forall|j: int| 0 <= j < lines@.len() ==> #[trigger] idx@[j] == block_of(statuses(lines@), j),
            rows@.len() == i,
            forall|j: int| 0 <= j < i ==> line_data_ok(#[trigger] rows@[j], lines@[j], idx@[j], left_highlights@, right_highlights@, tab_width as nat),
        decreases lines@.len() - i,
    {
        let l = &lines[i];
        rows.push(DiffLineData {
            left_line_no: no_string(l.left_line_no),
            right_line_no: no_string(l.right_line_no),
            left_text: expand_tabs(l.left_text.as_str(), tab_width),
            right_text: expand_tabs(l.right_text.as_str(), tab_width),
            status: l.status.as_i32(),
            is_current_diff: false,
            diff_index: idx[i],
            left_highlight: highlight_of(left_highlights, l.left_line_no),
            right_highlight: highlight_of(right_highlights, l.right_line_no),
            left_word_diff: build_word_diff_string(&l.left_word_segments),
            right_word_diff: build_word_diff_string(&l.right_word_segments),
            is_search_match: false,
            is_selected: false,
        });
        i = i + 1;
    }
    rows
}

/// How many rows have the status.
pub open spec fn count_status(lines: Seq<DiffLine>, s: LineStatus) -> nat
    decreases lines.len(),
{
    if lines.len() == 0 {
        0
    } else {
        count_status(lines.drop_last(), s) + if lines.last().status == s { 1nat } else { 0nat }
    }
}

/// "+A -R ~M" for the numbers of added, removed and modified rows.
pub open spec fn stats_text(lines: Seq<DiffLine>) -> Seq<char> {
    seq!['+'] + dec(count_status(lines, LineStatus::Added)) + " -"@ + dec(count_status(lines, LineStatus::Removed))
        + " ~"@ + dec(count_status(lines, LineStatus::Modified))
}

/// The statistics text of a diff: "+A -R ~M".
pub fn compute_diff_stats(result: &DiffResult) -> (s: String)
    ensures
        s@ == stats_text(result.lines@),
{
    let lines = &result.lines;
    let mut added: u64 = 0;
    let mut removed: u64 = 0;
    let mut modified: u64 = 0;
    let mut i: usize = 0;
    while i < lines.len()
        invariant
            i <= lines@.len(),
            added == count_status(lines@.take(i as int), LineStatus::Added),
            removed == count_status(lines@.take(i as int), LineStatus::Removed),
            modified == count_status(lines@.take(i as int), LineStatus::Modified),
            added + removed + modified <= i,
        decreases lines@.len() - i,
    {
        assert(lines@.take(i + 1).drop_last() =~= lines@.take(i as int));
        match lines[i].status {
            LineStatus::Added => added = added + 1,
            LineStatus::Removed => removed = removed + 1,
            LineStatus::Modified => modified = modified + 1,
            _ => {},
        }
        i = i + 1;
    }
    assert(lines@.take(lines@.len() as int) =~= lines@);
    let mut s = String::new();
    push_char(&mut s, '+');
    push_dec(&mut s, added);
    push_str(&mut s, " -");
    push_dec(&mut s, removed);
    push_str(&mut s, " ~");
    push_dec(&mut s, modified);
    assert(s@ =~= stats_text(lines@));
    s
}

/// Lines joined with line feeds and ended with one; a single line feed when there are none.
pub open spec fn joined_text(lines: Seq<Seq<char>>) -> Seq<char> {
    if lines.len() == 0 { seq!['\n'] } else { join_lines_nl(lines) }
}

/// The left texts of the rows that are not added.
pub open spec fn left_lines_of(rows: Seq<DiffLineData>) -> Seq<Seq<char>>
    decreases rows.len(),
{
    if rows.len() == 0 {
        Seq::empty()
    } else if rows.last().status == 1 {
        left_lines_of(rows.drop_last())
    } else {
        left_lines_of(rows.drop_last()).push(rows.last().left_text@)
    }
}

/// The right texts of the rows that are not removed.
pub open spec fn right_lines_of(rows: Seq<DiffLineData>) -> Seq<Seq<char>>
    decreases rows.len(),
{
    if rows.len() == 0 {
        Seq::empty()
    } else if rows.last().status == 2 {
        right_lines_of(rows.drop_last())
    } else {
        right_lines_of(rows.drop_last()).push(rows.last().right_text@)
    }
}

/// The right text after copying block `d` from the left: rows of that block
/// give their left text when removed or modified, nothing when added, their
/// right text otherwise; other rows give their right text unless removed.
pub open spec fn right_after_copy(rows: Seq<DiffLineData>, d: i32) -> Seq<Seq<char>>
    decreases rows.len(),
{
    if rows.len() == 0 {
        Seq::empty()
    } else {
        let prev = right_after_copy(rows.drop_last(), d);
        let r = rows.last();
        if r.diff_index == d {
            if r.status == 2 || r.status == 3 {
                prev.push(r.left_text@)
            } else if r.status == 1 {
                prev
            } else {
                prev.push(r.right_text@)
            }
        } else if r.status == 2 {
            prev
        } else {
            prev.push(r.right_text@)
        }
    }
}

/// The left text after copying block `d` from the right (mirror of `right_after_copy`).
pub open spec fn left_after_copy(rows: Seq<DiffLineData>, d: i32) -> Seq<Seq<char>>
    decreases rows.len(),
{
    if rows.len() == 0 {
        Seq::empty()
    } else {
        let prev = left_after_copy(rows.drop_last(), d);
        let r = rows.last();
        if r.diff_index == d {
            if r.status == 1 || r.status == 3 {
                prev.push(r.right_text@)
            } else if r.status == 2 {
                prev
            } else {
                prev.push(r.left_text@)
            }
        } else if r.status == 1 {
            prev
        } else {
            prev.push(r.left_text@)
        }
    }
}

/// Which text a row gives: 0 none, 1 its left text, 2 its right text.
pub open spec fn pick(r: DiffLineData, mode: int, d: i32) -> int {
    if mode == 0 {
        if r.status == 1 { 0 } else { 1 }
    } else if mode == 1 {
        if r.status == 2 { 0 } else { 2 }
    } else if mode == 2 {
        if r.diff_index == d {
            if r.status == 2 || r.status == 3 { 1 } else if r.status == 1 { 0 } else { 2 }
        } else if r.status == 2 {
            0
        } else {
            2
        }
    } else {
        if r.diff_index == d {
            if r.status == 1 || r.status == 3 { 2 } else if r.status == 2 { 0 } else { 1 }
        } else if r.status == 1 {
            0
        } else {
            1
        }
    }
}

/// The texts the rows give under a mode (see `pick`).
pub open spec fn picked(rows: Seq<DiffLineData>, mode: int, d: i32) -> Seq<Seq<char>>
    decreases rows.len(),
{
    if rows.len() == 0 {
        Seq::empty()
    } else {
        let p = pick(rows.last(), mode, d);
        let prev = picked(rows.drop_last(), mode, d);
        if p == 1 {
            prev.push(rows.last().left_text@)
        } else if p == 2 {
            prev.push(rows.last().right_text@)
        } else {
            prev
        }
    }
}

proof fn lemma_picked(rows: Seq<DiffLineData>, d: i32)
    ensures
        picked(rows, 0, d) == left_lines_of(rows),
        picked(rows, 1, d) == right_lines_of(rows),
        picked(rows, 2, d) == right_after_copy(rows, d),
        picked(rows, 3, d) == left_after_copy(rows, d),
    decreases rows.len(),
{
    if rows.len() > 0 {
        lemma_picked(rows.drop_last(), d);
    }
}

/// Joins the texts the rows give under a mode.
fn gather(rows: &Vec<DiffLineData>, mode: u8, d: i32) -> (s: String)
    requires
        mode <= 3,
    ensures
        s@ == joined_text(picked(rows@, mode as int, d)),
{
    let mut out = String::new();
    let mut any = false;
    let mut i: usize = 0;
    while i < rows.len()
        invariant
            i <= rows@.len(),
            mode <= 3,
            out@ == join_lines_nl(picked(rows@.take(i as int), mode as int, d)),
            any == (picked(rows@.take(i as int), mode as int, d).len() > 0),
        decreases rows@.len() - i,
    {
        let r = &rows[i];
        assert(rows@.take(i + 1).drop_last() =~= rows@.take(i as int));
        assert(rows@.take(i + 1).last() == *r);
        let p: u8 = if mode == 0 {
            if r.status == 1 { 0 } else { 1 }
        } else if mode == 1 {
            if r.status == 2 { 0 } else { 2 }
        } else if mode == 2 {
            if r.diff_index == d {
                if r.status == 2 || r.status == 3 { 1 } else if r.status == 1 { 0 } else { 2 }
            } else if r.status == 2 {
                0
            } else {
                2
            }
        } else {
            if r.diff_index == d {
                if r.status == 1 || r.status == 3 { 2 } else if r.status == 2 { 0 } else { 1 }
            } else if r.status == 1 {
                0
            } else {
                1
            }
        };
        assert(p as int == pick(*r, mode as int, d));
        let ghost prev = picked(rows@.take(i as int), mode as int, d);
        if p == 1 {
            push_str(&mut out, r.left_text.as_str());
            push_char(&mut out, '\n');
            any = true;
            assert(prev.push(r.left_text@).drop_last() =~= prev);
        } else if p == 2 {
            push_str(&mut out, r.right_text.as_str());
            push_char(&mut out, '\n');
            any = true;
            assert(prev.push(r.right_text@).drop_last() =~= prev);
        }
        i = i + 1;
    }
    assert(rows@.take(rows@.len() as int) =~= rows@);
    if !any {
        let mut s = String::new();
        push_char(&mut s, '\n');
        assert(s@ =~= seq!['\n']);
        s
    } else {
        out
    }
}

/// The left text of the view: left texts of the rows that are not added,
/// each ended by a line feed (a single line feed when there are none).
pub fn rebuild_left(rows: &Vec<DiffLineData>) -> (s: String)
    ensures
        s@ == joined_text(left_lines_of(rows@)),
{
    proof { lemma_picked(rows@, 0); }
    gather(rows, 0, 0)
}

/// The right text of the view: right texts of the rows that are not removed.
pub fn rebuild_right(rows: &Vec<DiffLineData>) -> (s: String)
    ensures
        s@ == joined_text(right_lines_of(rows@)),
{
    proof { lemma_picked(rows@, 0); }
    gather(rows, 1, 0)
}

/// The right text after copying diff block `target_diff_index` from the left.
pub fn rebuild_right_after_copy_from_left(rows: &Vec<DiffLineData>, target_diff_index: i32) -> (s: String)
    ensures
        s@ == joined_text(right_after_copy(rows@, target_diff_index)),
{
    proof { lemma_picked(rows@, target_diff_index); }
    gather(rows, 2, target_diff_index)
}

/// The left text after copying diff block `target_diff_index` from the right.
pub fn rebuild_left_after_copy_from_right(rows: &Vec<DiffLineData>, target_diff_index: i32) -> (s: String)
    ensures
        s@ == joined_text(left_after_copy(rows@, target_diff_index)),
{
    proof { lemma_picked(rows@, target_diff_index); }
    gather(rows, 3, target_diff_index)
}

/// A piece of a line in the detail view, changed or not.
#[derive(Debug, Clone)]
pub struct WordSegment {
    pub text: String,
    pub is_changed: bool,
}

/// The pieces of `s` between U+0001 separators (`str::split`).
pub open spec fn split_parts(s: Seq<char>, cur: Seq<char>) -> Seq<Seq<char>>
    decreases s.len(),
{
    if s.len() == 0 {
        seq![cur]
    } else if s[0] == '\u{1}' {
        seq![cur] + split_parts(s.drop_first(), Seq::empty())
    } else {
        split_parts(s.drop_first(), cur.push(s[0]))
    }
}

/// The segments of a line from its word-diff string: the whole text as one
/// unchanged segment when the string is empty, else the pieces between
/// separators with every second one changed.
pub open spec fn segments_of(text: Seq<char>, word_diff: Seq<char>) -> Seq<(Seq<char>, bool)> {
    if word_diff.len() == 0 {
        seq![(text, false)]
    } else {
        let parts = split_parts(word_diff, Seq::empty());
        Seq::new(parts.len(), |i: int| (parts[i], i % 2 == 1))
    }
}

/// Reads a word-diff string back into segments.
pub fn parse_word_diff_segments(text: &str, word_diff: &str) -> (segs: Vec<WordSegment>)
    ensures
        segs@.map_values(|w: WordSegment| (w.text@, w.is_changed)) == segments_of(text@, word_diff@),
{
    let wd = str_chars(word_diff);
    if wd.len() == 0 {
        let v = vec![WordSegment { text: str_to_string(text), is_changed: false }];
        assert(v@.map_values(|w: WordSegment| (w.text@, w.is_changed)) =~= seq![(text@, false)]);
        return v;
    }
    let ghost parts = split_parts(wd@, Seq::empty());
    let mut segs: Vec<WordSegment> = Vec::new();
    let mut start: usize = 0;
    let mut i: usize = 0;
    assert(wd@.skip(0) =~= wd@);
    assert(wd@.subrange(0, 0) =~= Seq::<char>::empty());
    while i < wd.len()
        invariant
            start <= i <= wd@.len(),
            parts == split_parts(wd@, Seq::empty()),
            parts == segs@.map_values(|w: WordSegment| w.text@) + split_parts(wd@.skip(i as int), wd@.subrange(start as int, i as int)),
            forall|k: int| 0 <= k < segs@.len() ==> (#[trigger] segs@[k]).is_changed == (k % 2 == 1),
        decreases wd@.len() - i,
    {
        let ghost rest = wd@.skip(i as int);
        assert(rest[0] == wd@[i as int]);
        assert(rest.drop_first() =~= wd@.skip(i + 1));
        let ghost before = segs@;
        if wd[i] == '\u{1}' {
            let k = segs.len();
            segs.push(WordSegment { text: string_from_range(wd.as_slice(), start, i), is_changed: k % 2 == 1 });
            assert(segs@.map_values(|w: WordSegment| w.text@) =~= before.map_values(|w: WordSegment| w.text@).push(wd@.subrange(start as int, i as int)));
            assert(wd@.subrange(i + 1, i + 1) =~= Seq::<char>::empty());
            start = i + 1;
        } else {
            assert(wd@.subrange(start as int, i + 1) =~= wd@.subrange(start as int, i as int).push(wd@[i as int]));
        }
        i = i + 1;
    }
    let k = segs.len();
    let ghost before = segs@;
    segs.push(WordSegment { text: string_from_range(wd.as_slice(), start, wd.len()), is_changed: k % 2 == 1 });
    assert(wd@.skip(wd@.len() as int) =~= Seq::<char>::empty());
    assert(segs@.map_values(|w: WordSegment| w.text@) =~= before.map_values(|w: WordSegment| w.text@).push(wd@.subrange(start as int, wd@.len() as int)));
    assert(parts =~= segs@.map_values(|w: WordSegment| w.text@));
    assert(segs@.map_values(|w: WordSegment| (w.text@, w.is_changed)) =~= segments_of(text@, word_diff@));
    segs
}

/// One row of the three-way view.
#[derive(Debug, Clone)]
pub struct ThreeWayLineData {
    pub base_line_no: String,
    pub left_line_no: String,
    pub right_line_no: String,
    pub base_text: String,
    pub left_text: String,
    pub right_text: String,
    pub status: i32,
    pub is_current: bool,
    pub conflict_index: i32,
    pub is_search_match: bool,
}

/// The view row of a three-way diff row; rows of the first block are
/// current when the diff has any block.
pub open spec fn three_way_data_ok(d: ThreeWayLineData, l: ThreeWayLine, block: i32, has_blocks: bool) -> bool {
    &&& d.base_line_no@ == no_text(l.base_line_no)
    &&& d.left_line_no@ == no_text(l.left_line_no)
    &&& d.right_line_no@ == no_text(l.right_line_no)
    &&& d.base_text@ == l.base_text@
    &&& d.left_text@ == l.left_text@
    &&& d.right_text@ == l.right_text@
    &&& d.status == status_code(l.status)
    &&& d.is_current == (block == 0 && has_blocks)
    &&& d.conflict_index == block
    &&& !d.is_search_match
}

/// The view rows of a three-way diff.
pub fn build_three_way_line_data(result: &ThreeWayResult) -> (rows: Vec<ThreeWayLineData>)
    requires
        result.lines@.len() < i32::MAX,
    ensures
        rows@.len() == result.lines@.len(),
        forall|i: int| 0 <= i < rows@.len() ==> three_way_data_ok(
            #[trigger] rows@[i],
            result.lines@[i],
            block3_of(statuses3(result.lines@), i),
            result.conflict_positions@.len() > 0,
        ),
{
    let lines = &result.lines;
    let idx = block3_indices(lines);
    let has_blocks = result.conflict_positions.len() > 0;
    let mut rows: Vec<ThreeWayLineData> = Vec::new();
    let mut i: usize = 0;
    while i < lines.len()
        invariant
            i <= lines@.len(),
            idx@.len() == lines@.len(),
            has_blocks == (result.conflict_positions@.len() > 0),
            forall|j: int| 0 <= j < lines@.len() ==> #[trigger] idx@[j] == block3_of(statuses3(lines@), j),
            rows@.len() == i,
            forall|j: int| 0 <= j < i ==> three_way_data_ok(#[trigger] rows@[j], lines@[j], idx@[j], has_blocks),
        decreases lines@.len() - i,
    {
        let l = &lines[i];
        let ci = idx[i];
        rows.push(ThreeWayLineData {
            base_line_no: no_string(l.base_line_no),
            left_line_no: no_string(l.left_line_no),
            right_line_no: no_string(l.right_line_no),
            base_text: str_to_string(l.base_text.as_str()),
            left_text: str_to_string(l.left_text.as_str()),
            right_text: str_to_string(l.right_text.as_str()),
            status: l.status.as_i32(),
            is_current: ci == 0 && has_blocks,
            conflict_index: ci,
            is_search_match: false,
        });
        i = i + 1;
    }
    rows
}

/// The texts of one pane (0 = left, 1 = base, other = right) on the rows
/// that show a line number there.
pub open spec fn three_way_pane_texts(rows: Seq<ThreeWayLineData>, pane: i32) -> Seq<Seq<char>>
    decreases rows.len(),
{
    if rows.len() == 0 {
        Seq::empty()
    } else {
        let r = rows.last();
        let (no, text) = if pane == 0 {
            (r.left_line_no@, r.left_text@)
        } else if pane == 1 {
            (r.base_line_no@, r.base_text@)
        } else {
            (r.right_line_no@, r.right_text@)
        };
        if no.len() > 0 {
            three_way_pane_texts(rows.drop_last(), pane).push(text)
        } else {
            three_way_pane_texts(rows.drop_last(), pane)
        }
    }
}

/// The text of one pane of the three-way view: its real lines, each ended
/// by a line feed.
pub fn rebuild_three_way_text(rows: &Vec<ThreeWayLineData>, pane: i32) -> (s: String)
    ensures
        s@ == join_lines_nl(three_way_pane_texts(rows@, pane)),
{
    let mut out = String::new();
    let mut i: usize = 0;
    while i < rows.len()
        invariant
            i <= rows@.len(),
            out@ == join_lines_nl(three_way_pane_texts(rows@.take(i as int), pane)),
        decreases rows@.len() - i,
    {
        let r = &rows[i];
        assert(rows@.take(i + 1).drop_last() =~= rows@.take(i as int));
        assert(rows@.take(i + 1).last() == *r);
        let (no, text) = if pane == 0 {
            (&r.left_line_no, &r.left_text)
        } else if pane == 1 {
            (&r.base_line_no, &r.base_text)
        } else {
            (&r.right_line_no, &r.right_text)
        };
        if !no.as_str().is_empty() {
            let ghost prev = three_way_pane_texts(rows@.take(i as int), pane);
            push_str(&mut out, text.as_str());
            push_char(&mut out, '\n');
            assert(prev.push(text@).drop_last() =~= prev);
        }
        i = i + 1;
    }
    assert(rows@.take(rows@.len() as int) =~= rows@);
    out
}

} // verus!

verus! {

/// Rebuilding a pane of the three-way view built from a diff gives that
/// pane's lines of the diff, in order.
pub proof fn lemma_three_way_view_pane_lines(
    rows: Seq<ThreeWayLineData>,
    lines: Seq<ThreeWayLine>,
    blocks: Seq<i32>,
    has_blocks: bool,
    pane: i32,
)
    requires
        rows.len() == lines.len(),
        blocks.len() == lines.len(),
        forall|i: int| 0 <= i < lines.len() ==> three_way_data_ok(#[trigger] rows[i], lines[i], blocks[i], has_blocks),
    ensures
        three_way_pane_texts(rows, pane) == pane_lines(lines, if pane == 0 { 0int } else if pane == 1 { 1int } else { 2int }),
    decreases lines.len(),
{
    if lines.len() > 0 {
        let n = lines.len() - 1;
        assert(three_way_data_ok(rows[n], lines[n], blocks[n], has_blocks));
        let l = lines[n];
        match l.left_line_no { Some(k) => crate::numfmt::lemma_digits_nonempty(k as nat, 10), None => {} }
        match l.base_line_no { Some(k) => crate::numfmt::lemma_digits_nonempty(k as nat, 10), None => {} }
        match l.right_line_no { Some(k) => crate::numfmt::lemma_digits_nonempty(k as nat, 10), None => {} }
        assert(rows.drop_last().len() == lines.drop_last().len());
        lemma_three_way_view_pane_lines(rows.drop_last(), lines.drop_last(), blocks.drop_last(), has_blocks, pane);
    }
}

/// The tab-expanded left texts of the rows that are not added.
pub open spec fn non_added_left_texts(lines: Seq<DiffLine>, tw: nat) -> Seq<Seq<char>>
    decreases lines.len(),
{
    if lines.len() == 0 {
        Seq::empty()
    } else if lines.last().status == LineStatus::Added {
        non_added_left_texts(lines.drop_last(), tw)
    } else {
        non_added_left_texts(lines.drop_last(), tw).push(tabs_expanded(lines.last().left_text@, tw))
    }
}

/// The tab-expanded right texts of the rows that are not removed.
pub open spec fn non_removed_right_texts(lines: Seq<DiffLine>, tw: nat) -> Seq<Seq<char>>
    decreases lines.len(),
{
    if lines.len() == 0 {
        Seq::empty()
    } else if lines.last().status == LineStatus::Removed {
        non_removed_right_texts(lines.drop_last(), tw)
    } else {
        non_removed_right_texts(lines.drop_last(), tw).push(tabs_expanded(lines.last().right_text@, tw))
    }
}

/// Rebuilding the sides of the view built from a diff gives the left texts
/// of its non-added rows and the right texts of its non-removed rows.
pub proof fn lemma_view_sides(rows: Seq<DiffLineData>, lines: Seq<DiffLine>, blocks: Seq<i32>, lh: Seq<i32>, rh: Seq<i32>, tw: nat)
    requires
        rows.len() == lines.len(),
        blocks.len() == lines.len(),
        forall|i: int| 0 <= i < lines.len() ==> line_data_ok(#[trigger] rows[i], lines[i], blocks[i], lh, rh, tw),
    ensures
        left_lines_of(rows) == non_added_left_texts(lines, tw),
        right_lines_of(rows) == non_removed_right_texts(lines, tw),
    decreases lines.len(),
{
    if lines.len() > 0 {
        let n = lines.len() - 1;
        assert(line_data_ok(rows[n], lines[n], blocks[n], lh, rh, tw));
        lemma_view_sides(rows.drop_last(), lines.drop_last(), blocks.drop_last(), lh, rh, tw);
    }
}

} // verus!

verus! {

proof fn lemma_dec_value(n: nat)
    ensures
        crate::view::all_digits(dec(n)),
        crate::view::digits_value(dec(n)) == n,
        dec(n).len() >= 1,
    decreases n,
{
    reveal_with_fuel(crate::numfmt::digits, 2);
    if n < 10 {
        let c = crate::numfmt::digit_char(n);
        assert(c as int == 48 + n);
        assert(dec(n) =~= seq![c]);
        assert(seq![c].drop_last() =~= Seq::<char>::empty());
        assert(crate::view::digits_value(Seq::<char>::empty()) == 0);
        assert(crate::view::digits_value(dec(n)) == 10 * crate::view::digits_value(seq![c].drop_last()) + (c as int - '0' as int));
        assert(crate::view::all_digits(dec(n)));
    } else {
        lemma_dec_value(n / 10);
        let c = crate::numfmt::digit_char(n % 10);
        assert(c as int == 48 + n % 10);
        assert(dec(n) == dec(n / 10).push(c));
        assert(dec(n).drop_last() =~= dec(n / 10));
        assert(crate::view::digits_value(dec(n)) == 10 * crate::view::digits_value(dec(n / 10)) + (c as int - '0' as int));
        assert forall|i: int| 0 <= i < dec(n).len() implies crate::view::is_digit(#[trigger] dec(n)[i]) by {
            if i < dec(n / 10).len() {
                assert(dec(n)[i] == dec(n / 10)[i]);
            }
        }
    }
}

proof fn lemma_parse_dec(n: nat)
    requires
        n <= i32::MAX,
    ensures
        crate::view::parse_i32_spec(dec(n)) == Some(n as i32),
{
    lemma_dec_value(n);
    let d = dec(n);
    assert(crate::view::is_digit(d[0]));
}

proof fn lemma_words_prefix(s: Seq<char>, t: Seq<char>, cur: Seq<char>)
    requires
        forall|i: int| 0 <= i < s.len() ==> !crate::text::is_ws(#[trigger] s[i]),
    ensures
        crate::text::words_from(s + t, cur) == crate::text::words_from(t, cur + s),
    decreases s.len(),
{
    if s.len() == 0 {
        assert(s + t =~= t);
        assert(cur + s =~= cur);
    } else {
        assert((s + t)[0] == s[0]);
        assert((s + t).drop_first() =~= s.drop_first() + t);
        assert(cur.push(s[0]) + s.drop_first() =~= cur + s);
        lemma_words_prefix(s.drop_first(), t, cur.push(s[0]));
    }
}

proof fn lemma_words_space(t: Seq<char>, cur: Seq<char>)
    requires
        cur.len() > 0,
    ensures
        crate::text::words_from(seq![' '] + t, cur) == seq![cur] + crate::text::words_from(t, Seq::empty()),
{
    assert((seq![' '] + t)[0] == ' ');
    assert((seq![' '] + t).drop_first() =~= t);
}

proof fn lemma_no_ws_word(c: char, d: Seq<char>)
    requires
        crate::view::all_digits(d),
        !crate::text::is_ws(c),
    ensures
        forall|i: int| 0 <= i < (seq![c] + d).len() ==> !crate::text::is_ws(#[trigger] (seq![c] + d)[i]),
{
    assert forall|i: int| 0 <= i < (seq![c] + d).len() implies !crate::text::is_ws(#[trigger] (seq![c] + d)[i]) by {
        if i > 0 {
            assert((seq![c] + d)[i] == d[i - 1]);
            assert(crate::view::is_digit(d[i - 1]));
        }
    }
}

proof fn lemma_three_words(w1: Seq<char>, w2: Seq<char>, w3: Seq<char>)
    requires
        w1.len() > 0,
        w2.len() > 0,
        w3.len() > 0,
        forall|i: int| 0 <= i < w1.len() ==> !crate::text::is_ws(#[trigger] w1[i]),
        forall|i: int| 0 <= i < w2.len() ==> !crate::text::is_ws(#[trigger] w2[i]),
        forall|i: int| 0 <= i < w3.len() ==> !crate::text::is_ws(#[trigger] w3[i]),
    ensures
        crate::text::words_from(w1 + (seq![' '] + (w2 + (seq![' '] + w3))), Seq::empty()) == seq![w1, w2, w3],
{
    let e = Seq::<char>::empty();
    lemma_words_prefix(w1, seq![' '] + (w2 + (seq![' '] + w3)), e);
    assert(e + w1 =~= w1);
    lemma_words_space(w2 + (seq![' '] + w3), w1);
    lemma_words_prefix(w2, seq![' '] + w3, e);
    assert(e + w2 =~= w2);
    lemma_words_space(w3, w2);
    lemma_words_prefix(w3, Seq::empty(), e);
    assert(w3 + Seq::<char>::empty() =~= w3);
    assert(e + w3 =~= w3);
    assert(crate::text::words_from(Seq::<char>::empty(), w3) =~= seq![w3]);
    assert(seq![w1] + (seq![w2] + seq![w3]) =~= seq![w1, w2, w3]);
}

proof fn lemma_three_stats(a: Seq<char>, r: Seq<char>, m: Seq<char>)
    ensures
        crate::view::stats_from(seq![seq!['+'] + a, seq!['-'] + r, seq!['~'] + m], 3) == (
            crate::view::stat_value(a),
            crate::view::stat_value(r),
            crate::view::stat_value(m),
        ),
{
    let ws = seq![seq!['+'] + a, seq!['-'] + r, seq!['~'] + m];
    assert(ws[0].drop_first() =~= a);
    assert(ws[1].drop_first() =~= r);
    assert(ws[2].drop_first() =~= m);
    assert(ws[0][0] == '+');
    assert(ws[1][0] == '-');
    assert(ws[2][0] == '~');
    reveal_with_fuel(crate::view::stats_from, 4);
}

/// Parsing the statistics text of a diff gives back its numbers of added,
/// removed and modified rows (when each fits in an `i32`).
pub proof fn lemma_stats_round_trip(lines: Seq<DiffLine>)
    requires
        count_status(lines, LineStatus::Added) <= i32::MAX,
        count_status(lines, LineStatus::Removed) <= i32::MAX,
        count_status(lines, LineStatus::Modified) <= i32::MAX,
    ensures
        crate::view::diff_stats_of(stats_text(lines)) == (
            count_status(lines, LineStatus::Added) as i32,
            count_status(lines, LineStatus::Removed) as i32,
            count_status(lines, LineStatus::Modified) as i32,
        ),
{
    let na = count_status(lines, LineStatus::Added);
    let nr = count_status(lines, LineStatus::Removed);
    let nm = count_status(lines, LineStatus::Modified);
    let a = dec(na);
    let r = dec(nr);
    let m = dec(nm);
    lemma_dec_value(na);
    lemma_dec_value(nr);
    lemma_dec_value(nm);
    lemma_parse_dec(na);
    lemma_parse_dec(nr);
    lemma_parse_dec(nm);
    lemma_no_ws_word('+', a);
    lemma_no_ws_word('-', r);
    lemma_no_ws_word('~', m);
    reveal_strlit(" -");
    reveal_strlit(" ~");
    assert(stats_text(lines) =~= (seq!['+'] + a) + (seq![' '] + ((seq!['-'] + r) + (seq![' '] + (seq!['~'] + m)))));
    lemma_three_words(seq!['+'] + a, seq!['-'] + r, seq!['~'] + m);
    lemma_three_stats(a, r, m);
}

} // verus!
