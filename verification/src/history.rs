//! Undo and redo: two stacks of snapshots of the edited texts (or tables).
use vstd::prelude::*;
use crate::text::str_to_string;
use crate::pane_buffer::{PaneBuffer, extract_real_lines, real_text_lines};
use crate::text::join_lines_nl;

verus! {

/// The texts of both sides of a two-way view.
#[derive(Debug, Clone)]
pub struct TextSnapshot {
    pub left_text: String,
    pub right_text: String,
}

/// The undo and redo stacks; the last element of each is the next one used.
pub struct UndoHistory<T> {
    pub undo_stack: Vec<T>,
    pub redo_stack: Vec<T>,
}

/// The stacks after an undo from `current`: when there is something to
/// undo, `current` goes on the redo stack and the last snapshot comes off
/// the undo stack (and is returned); else nothing changes.
pub open spec fn undo_step<T>(undo: Seq<T>, redo: Seq<T>, current: T) -> (Seq<T>, Seq<T>, Option<T>) {
    if undo.len() == 0 {
        (undo, redo, None)
    } else {
        (undo.drop_last(), redo.push(current), Some(undo.last()))
    }
}

/// The stacks after a redo from `current` (the mirror image of `undo_step`).
pub open spec fn redo_step<T>(undo: Seq<T>, redo: Seq<T>, current: T) -> (Seq<T>, Seq<T>, Option<T>) {
    if redo.len() == 0 {
        (undo, redo, None)
    } else {
        (undo.push(current), redo.drop_last(), Some(redo.last()))
    }
}

impl<T> UndoHistory<T> {
    /// No history.
    pub fn new() -> (h: Self)
        ensures
            h.undo_stack@.len() == 0,
            h.redo_stack@.len() == 0,
    {
        UndoHistory { undo_stack: Vec::new(), redo_stack: Vec::new() }
    }

    /// Records the state before an edit: it can be undone to, and what was
    /// undone can no longer be redone.
    pub fn record(&mut self, snapshot: T)
        ensures
            final(self).undo_stack@ == old(self).undo_stack@.push(snapshot),
            final(self).redo_stack@.len() == 0,
    {
        self.undo_stack.push(snapshot);
        self.redo_stack.clear();
    }

    /// Undoes from the `current` state; returns the state to restore.
    pub fn undo(&mut self, current: T) -> (r: Option<T>)
        ensures
            (final(self).undo_stack@, final(self).redo_stack@, r)
                == undo_step(old(self).undo_stack@, old(self).redo_stack@, current),
    {
        if self.undo_stack.len() == 0 {
            return None;
        }
        self.redo_stack.push(current);
        self.undo_stack.pop()
    }

    /// Redoes from the `current` state; returns the state to restore.
    pub fn redo(&mut self, current: T) -> (r: Option<T>)
        ensures
            (final(self).undo_stack@, final(self).redo_stack@, r)
                == redo_step(old(self).undo_stack@, old(self).redo_stack@, current),
    {
        if self.redo_stack.len() == 0 {
            return None;
        }
        self.undo_stack.push(current);
        self.redo_stack.pop()
    }

    pub fn can_undo(&self) -> (b: bool)
        ensures
            b == (self.undo_stack@.len() > 0),
    {
        self.undo_stack.len() > 0
    }

    pub fn can_redo(&self) -> (b: bool)
        ensures
            b == (self.redo_stack@.len() > 0),
    {
        self.redo_stack.len() > 0
    }
}

/// Undoing and then redoing (from the state the undo gave) brings back the
/// state and the stacks as they were.
pub proof fn lemma_undo_then_redo<T>(undo: Seq<T>, redo: Seq<T>, current: T)
    requires
        undo.len() > 0,
    ensures
        ({
            let (u1, r1, back) = undo_step(undo, redo, current);
            let (u2, r2, again) = redo_step(u1, r1, back->0);
            &&& back == Some(undo.last())
            &&& again == Some(current)
            &&& u2 == undo
            &&& r2 == redo
        }),
{
    assert(undo.drop_last().push(undo.last()) =~= undo);
    assert(redo.push(current).drop_last() =~= redo);
}

/// Redoing and then undoing brings back the state and the stacks.
pub proof fn lemma_redo_then_undo<T>(undo: Seq<T>, redo: Seq<T>, current: T)
    requires
        redo.len() > 0,
    ensures
        ({
            let (u1, r1, fwd) = redo_step(undo, redo, current);
            let (u2, r2, back) = undo_step(u1, r1, fwd->0);
            &&& fwd == Some(redo.last())
            &&& back == Some(current)
            &&& u2 == undo
            &&& r2 == redo
        }),
{
    assert(redo.drop_last().push(redo.last()) =~= redo);
    assert(undo.push(current).drop_last() =~= undo);
}

/// Undoing right after recording gives back the recorded state.
pub proof fn lemma_record_then_undo<T>(undo: Seq<T>, snapshot: T, current: T)
    ensures
        undo_step(undo.push(snapshot), Seq::<T>::empty(), current) == (undo, seq![current], Some(snapshot)),
{
    assert(undo.push(snapshot).drop_last() =~= undo);
    assert(Seq::<T>::empty().push(current) =~= seq![current]);
}

/// The text of a pane for a snapshot: its real lines, or a single line feed
/// without a buffer.
pub open spec fn snapshot_text(b: Option<PaneBuffer>) -> Seq<char> {
    match b {
        Some(buf) => join_lines_nl(real_text_lines(buf.model@)),
        None => seq!['\n'],
    }
}

/// The texts of both panes of a two-way view, to record or to compare with.
pub fn text_snapshot(left: &Option<PaneBuffer>, right: &Option<PaneBuffer>) -> (s: TextSnapshot)
    ensures
        s.left_text@ == snapshot_text(*left),
        s.right_text@ == snapshot_text(*right),
{
    let left_text = match left {
        Some(b) => extract_real_lines(b),
        None => {
            let s = str_to_string("\n");
            proof { reveal_strlit("\n"); }
            s
        },
    };
    let right_text = match right {
        Some(b) => extract_real_lines(b),
        None => {
            let s = str_to_string("\n");
            proof { reveal_strlit("\n"); }
            s
        },
    };
    TextSnapshot { left_text, right_text }
}

} // verus!
