//! Data shared by the comparison, view and export modules.
use vstd::prelude::*;

verus! {

/// How a row of a two-way diff compares.
#[derive(Debug, Clone, Copy, PartialEq, Eq, Structural)]
pub enum LineStatus {
    Equal,
    Added,
    Removed,
    Modified,
    Moved,
}

/// The number a status is shown as (0 equal, 1 added, 2 removed, 3 modified, 4 moved).
pub open spec fn line_status_code(s: LineStatus) -> i32 {
    match s {
        LineStatus::Equal => 0,
        LineStatus::Added => 1,
        LineStatus::Removed => 2,
        LineStatus::Modified => 3,
        LineStatus::Moved => 4,
    }
}

impl LineStatus {
    pub fn as_i32(&self) -> (r: i32)
        ensures
            r == line_status_code(*self),
    {
        match self {
            LineStatus::Equal => 0,
            LineStatus::Added => 1,
            LineStatus::Removed => 2,
            LineStatus::Modified => 3,
            LineStatus::Moved => 4,
        }
    }
}

/// A run of characters of one side of a modified line, changed or not.
#[derive(Debug, Clone)]
pub struct WordDiffSegment {
    pub text: String,
    pub changed: bool,
}

/// One aligned row of a two-way diff; a `None` line number is a ghost cell.
#[derive(Debug, Clone)]
pub struct DiffLine {
    pub left_line_no: Option<u32>,
    pub right_line_no: Option<u32>,
    pub left_text: String,
    pub right_text: String,
    pub status: LineStatus,
    pub left_word_segments: Vec<WordDiffSegment>,
    pub right_word_segments: Vec<WordDiffSegment>,
}

/// The rows of a two-way diff, the number of changed blocks and the row at
/// which each block starts.
#[derive(Debug, Clone)]
pub struct DiffResult {
    pub lines: Vec<DiffLine>,
    pub diff_count: u32,
    pub diff_positions: Vec<usize>,
}

/// How an entry of a folder comparison compares.
#[derive(Debug, Clone, Copy, PartialEq, Eq, Structural)]
pub enum FileCompareStatus {
    Identical,
    Different,
    LeftOnly,
    RightOnly,
}

/// The number a folder status is shown as (0 identical, 1 different, 2 left only, 3 right only).
pub open spec fn file_status_code(s: FileCompareStatus) -> i32 {
    match s {
        FileCompareStatus::Identical => 0,
        FileCompareStatus::Different => 1,
        FileCompareStatus::LeftOnly => 2,
        FileCompareStatus::RightOnly => 3,
    }
}

impl FileCompareStatus {
    pub fn as_i32(&self) -> (r: i32)
        ensures
            r == file_status_code(*self),
    {
        match self {
            FileCompareStatus::Identical => 0,
            FileCompareStatus::Different => 1,
            FileCompareStatus::LeftOnly => 2,
            FileCompareStatus::RightOnly => 3,
        }
    }
}

/// One entry of a folder (or archive) comparison.
#[derive(Debug, Clone)]
pub struct FolderItem {
    pub relative_path: String,
    pub is_directory: bool,
    pub status: FileCompareStatus,
    pub left_path: Option<String>,
    pub right_path: Option<String>,
    pub left_size: Option<u64>,
    pub right_size: Option<u64>,
    pub left_modified: Option<String>,
    pub right_modified: Option<String>,
}

/// Row `i` starts a run of changed rows.
pub open spec fn is_change_start(st: Seq<LineStatus>, i: int) -> bool {
    &&& st[i] != LineStatus::Equal
    &&& (i == 0 || st[i - 1] == LineStatus::Equal)
}

/// `pos` lists, in increasing order, exactly the rows that start a run of changed rows.
pub open spec fn marks_change_starts(st: Seq<LineStatus>, pos: Seq<usize>) -> bool {
    &&& forall|k: int| 0 <= k < pos.len() ==> #[trigger] pos[k] < st.len() && is_change_start(st, pos[k] as int)
    &&& forall|k: int, j: int| 0 <= k < j < pos.len() ==> pos[k] < pos[j]
    &&& forall|i: int| 0 <= i < st.len() && #[trigger] is_change_start(st, i) ==> pos.contains(i as usize)
}

/// The statuses of a diff's rows.
pub open spec fn statuses(lines: Seq<DiffLine>) -> Seq<LineStatus> {
    lines.map_values(|l: DiffLine| l.status)
}


/// The row at which each run of changed rows starts, and how many there are.
pub fn change_starts(lines: &Vec<DiffLine>) -> (r: (Vec<usize>, u32))
    requires
        lines@.len() < u32::MAX,
    ensures
        marks_change_starts(statuses(lines@), r.0@),
        r.1 == r.0@.len(),
{
    let ghost st = statuses(lines@);
    let mut positions: Vec<usize> = Vec::new();
    let mut count: u32 = 0;
    let mut in_block = false;
    let mut idx: usize = 0;
    while idx < lines.len()
        invariant
            idx <= lines@.len(),
            lines@.len() < u32::MAX,
            st == statuses(lines@),
            st.len() == lines@.len(),
            count == positions@.len(),
            positions@.len() <= idx,
            in_block == (idx > 0 && st[idx - 1] != LineStatus::Equal),
            forall|k: int| 0 <= k < positions@.len() ==> #[trigger] positions@[k] < idx && is_change_start(st, positions@[k] as int),
            forall|k: int, j: int| 0 <= k < j < positions@.len() ==> positions@[k] < positions@[j],
            forall|i: int| 0 <= i < idx && #[trigger] is_change_start(st, i) ==> positions@.contains(i as usize),
        decreases lines@.len() - idx,
    {
        assert(st[idx as int] == lines@[idx as int].status);
        if lines[idx].status != LineStatus::Equal {
            if !in_block {
                let ghost old_p = positions@;
                positions.push(idx);
                count = count + 1;
                in_block = true;
                assert(is_change_start(st, idx as int));
                assert forall|i: int| 0 <= i < idx + 1 && #[trigger] is_change_start(st, i) implies positions@.contains(i as usize) by {
                    if i < idx {
                        let k = choose|k: int| 0 <= k < old_p.len() && old_p[k] == i as usize;
                        assert(positions@[k] == old_p[k]);
                    } else {
                        assert(positions@[old_p.len() as int] == idx);
                    }
                }
                assert forall|k: int| 0 <= k < positions@.len() implies #[trigger] positions@[k] < idx + 1 && is_change_start(st, positions@[k] as int) by {
                    if k < old_p.len() { assert(positions@[k] == old_p[k]); }
                }
                assert forall|k: int, j: int| 0 <= k < j < positions@.len() implies positions@[k] < positions@[j] by {
                    assert(positions@[k] == old_p[k] || k == old_p.len());
                    if j < old_p.len() { assert(positions@[j] == old_p[j]); assert(positions@[k] == old_p[k]); }
                    else { assert(positions@[k] == old_p[k]); }
                }
            }
        } else {
            in_block = false;
        }
        idx = idx + 1;
    }
    (positions, count)
}

} // verus!
