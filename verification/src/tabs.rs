//! The list of open tabs: moving and closing tabs while keeping track of
//! the active one, and the window title.
use vstd::prelude::*;
use crate::text::{str_eq, str_to_string, push_str};

verus! {

/// The active index after moving the tab at `from` to `to`.
pub open spec fn active_after_move(active: int, from: int, to: int) -> int {
    if active == from {
        to
    } else if from < active && to >= active {
        active - 1
    } else if from > active && to <= active {
        active + 1
    } else {
        active
    }
}

/// Moves the tab at `from` to position `to` and returns the new active
/// index; nothing moves when either index is out of range or they are equal.
pub fn reorder_tab<T>(tabs: &mut Vec<T>, active: usize, from: usize, to: usize) -> (new_active: usize)
    requires
        active < old(tabs)@.len(),
    ensures
        from >= old(tabs)@.len() || to >= old(tabs)@.len() || from == to ==> final(tabs)@ == old(tabs)@ && new_active == active,
        !(from >= old(tabs)@.len() || to >= old(tabs)@.len() || from == to) ==> {
            &&& final(tabs)@ == old(tabs)@.remove(from as int).insert(to as int, old(tabs)@[from as int])
            &&& new_active == active_after_move(active as int, from as int, to as int)
        },
        // The active tab stays active.
        new_active < final(tabs)@.len(),
        final(tabs)@[new_active as int] == old(tabs)@[active as int],
{
    if from >= tabs.len() || to >= tabs.len() || from == to {
        return active;
    }
    let ghost orig = tabs@;
    let tab = tabs.remove(from);
    tabs.insert(to, tab);
    let r = if active == from {
        to
    } else if from < active && to >= active {
        active - 1
    } else if from > active && to <= active {
        active + 1
    } else {
        active
    };
    assert(tabs@ == orig.remove(from as int).insert(to as int, orig[from as int]));
    r
}

/// The active index after closing the tab at `idx` of `len` tabs.
pub open spec fn active_after_close(active: int, idx: int, len: int) -> int {
    if active >= len - 1 {
        len - 2
    } else if active > idx {
        active - 1
    } else {
        active
    }
}

/// Closes the tab at `index` and returns the new active index; `None`
/// (and nothing closed) when the index is out of range or it is the last
/// tab left.
pub fn force_close_tab<T>(tabs: &mut Vec<T>, active: usize, index: i32) -> (new_active: Option<usize>)
    requires
        active < old(tabs)@.len(),
    ensures
        new_active is None <==> (index < 0 || index >= old(tabs)@.len() || old(tabs)@.len() <= 1),
        new_active is None ==> final(tabs)@ == old(tabs)@,
        new_active matches Some(a) ==> {
            &&& final(tabs)@ == old(tabs)@.remove(index as int)
            &&& a == active_after_close(active as int, index as int, old(tabs)@.len() as int)
            &&& a < final(tabs)@.len()
            // Closing another tab keeps the active one active.
            &&& index != active ==> final(tabs)@[a as int] == old(tabs)@[active as int]
        },
{
    if index < 0 || index as usize >= tabs.len() || tabs.len() <= 1 {
        return None;
    }
    let idx = index as usize;
    tabs.remove(idx);
    let n = tabs.len();
    let a = if active >= n {
        n - 1
    } else if active > idx {
        active - 1
    } else {
        active
    };
    Some(a)
}

/// What asking to close a tab leads to.
#[derive(Debug, Clone, Copy, PartialEq, Eq, Structural)]
pub enum CloseRequest {
    /// No such tab, or the last one: nothing happens.
    Ignore,
    /// The tab has unsaved changes: ask first.
    Confirm,
    /// Close it.
    Close,
}

/// Whether the tab at `index` of `len` tabs closes right away, needs a
/// confirmation because of unsaved changes, or stays.
pub fn close_tab(index: i32, len: usize, has_unsaved_changes: bool) -> (r: CloseRequest)
    ensures
        r == if index < 0 || index >= len || len <= 1 {
            CloseRequest::Ignore
        } else if has_unsaved_changes {
            CloseRequest::Confirm
        } else {
            CloseRequest::Close
        },
{
    if index < 0 || index as usize >= len || len <= 1 {
        CloseRequest::Ignore
    } else if has_unsaved_changes {
        CloseRequest::Confirm
    } else {
        CloseRequest::Close
    }
}

/// The window title for the active tab's title.
pub fn window_title(tab_title: &str) -> (s: String)
    ensures
        s@ == if tab_title@ == "New"@ { "WinXMerge"@ } else { tab_title@ + " - WinXMerge"@ },
{
    if str_eq(tab_title, "New") {
        str_to_string("WinXMerge")
    } else {
        let mut s = str_to_string(tab_title);
        push_str(&mut s, " - WinXMerge");
        s
    }
}

} // verus!
