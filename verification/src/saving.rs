//! Deciding how edited panes are saved: written to their file, queued for a
//! "Save As" dialog, or refused while lines are hidden from the comparison.
use vstd::prelude::*;
use crate::text::{str_chars, trimmed, trim_bounds, push_str};
use crate::diff_engine::DiffOptions;

verus! {

/// Where the text of one pane goes when saving all tabs.
#[derive(Debug, Clone, Copy, PartialEq, Eq, Structural)]
pub enum SaveRoute {
    /// The pane has a file: write the text there.
    Write,
    /// No file yet and the text is not blank: ask for a file name.
    Queue,
    /// No file and only blank text: nothing to save.
    Skip,
}

/// The route of a pane's text.
pub open spec fn route_of(has_path: bool, text: Seq<char>) -> SaveRoute {
    if has_path {
        SaveRoute::Write
    } else if trimmed(text).len() > 0 {
        SaveRoute::Queue
    } else {
        SaveRoute::Skip
    }
}

/// Where a pane's text goes: its file when it has one, else the "Save As"
/// queue unless the text is blank.
pub fn save_route(has_path: bool, text: &str) -> (r: SaveRoute)
    ensures
        r == route_of(has_path, text@),
{
    if has_path {
        return SaveRoute::Write;
    }
    let cs = str_chars(text);
    let (a, b) = trim_bounds(&cs);
    if a < b { SaveRoute::Queue } else { SaveRoute::Skip }
}

/// Saving a two-way tab is refused while blank lines are ignored, while a
/// line filter is set, or after a comparison already dropped hidden lines
/// from the panes: those lines are not in the panes, so writing the panes
/// would delete them from the file.
pub fn save_blocked_by_hidden_lines(options: &DiffOptions, hidden_lines_dropped: bool) -> (b: bool)
    ensures
        b == (options.ignore_blank_lines || options.line_filters@.len() > 0 || hidden_lines_dropped),
{
    options.ignore_blank_lines || options.line_filters.len() > 0 || hidden_lines_dropped
}

/// How the panes of one tab are saved when saving all tabs: nothing for a
/// tab without changes or whose save is refused, else one route per pane
/// (in the order given), and whether the tab counts as saved afterwards
/// (every pane had a file).
pub fn plan_tab_saves(has_unsaved_changes: bool, blocked: bool, panes: &Vec<(bool, String)>) -> (r: (Vec<SaveRoute>, bool))
    ensures
        !has_unsaved_changes || blocked ==> r.0@.len() == 0 && !r.1,
        has_unsaved_changes && !blocked ==> {
            &&& r.0@.len() == panes@.len()
            &&& forall|i: int| 0 <= i < panes@.len() ==> #[trigger] r.0@[i] == route_of(panes@[i].0, panes@[i].1@)
            &&& r.1 == forall|i: int| 0 <= i < panes@.len() ==> #[trigger] panes@[i].0
        },
{
    let mut routes: Vec<SaveRoute> = Vec::new();
    if !has_unsaved_changes || blocked {
        return (routes, false);
    }
    let mut all_paths = true;
    let mut i: usize = 0;
    while i < panes.len()
        invariant
            i <= panes@.len(),
            routes@.len() == i,
            forall|j: int| 0 <= j < i ==> #[trigger] routes@[j] == route_of(panes@[j].0, panes@[j].1@),
            all_paths == forall|j: int| 0 <= j < i ==> #[trigger] panes@[j].0,
        decreases panes@.len() - i,
    {
        let r = save_route(panes[i].0, panes[i].1.as_str());
        routes.push(r);
        if !panes[i].0 {
            all_paths = false;
        }
        i = i + 1;
    }
    (routes, all_paths)
}

/// The status line when saving the current tab is refused.
pub fn save_blocked_message() -> (s: String)
    ensures
        s@ == "Save blocked: turn off \"Ignore blank lines\" and clear line filters first \u{2014} saving now could permanently delete lines that were hidden from comparison (#63). If you edited while the option was on, close without saving and reopen the files instead."@,
{
    let mut s = String::new();
    push_str(&mut s, "Save blocked: turn off \"Ignore blank lines\" and clear line filters first \u{2014} saving now could permanently delete lines that were hidden from comparison (#63). If you edited while the option was on, close without saving and reopen the files instead.");
    assert(s@ =~= "Save blocked: turn off \"Ignore blank lines\" and clear line filters first \u{2014} saving now could permanently delete lines that were hidden from comparison (#63). If you edited while the option was on, close without saving and reopen the files instead."@);
    s
}

/// The status line when saving a tab is refused while saving all tabs.
pub fn save_all_blocked_message(title: &str) -> (s: String)
    ensures
        s@ == "Save blocked for \""@ + title@ + "\": turn off \"Ignore blank lines\" and clear line filters first \u{2014} saving now could permanently delete lines that were hidden from comparison (#63). If you edited while the option was on, close without saving and reopen the files instead."@,
{
    let mut s = String::new();
    push_str(&mut s, "Save blocked for \"");
    push_str(&mut s, title);
    push_str(&mut s, "\": turn off \"Ignore blank lines\" and clear line filters first \u{2014} saving now could permanently delete lines that were hidden from comparison (#63). If you edited while the option was on, close without saving and reopen the files instead.");
    s
}

/// The status line after a pane was saved: its side, the file and the encoding.
pub fn file_saved_message(side: &str, path: &str, encoding: &str) -> (s: String)
    ensures
        s@ == side@ + " file saved: "@ + path@ + " ("@ + encoding@ + ")"@,
{
    let mut s = String::new();
    push_str(&mut s, side);
    push_str(&mut s, " file saved: ");
    push_str(&mut s, path);
    push_str(&mut s, " (");
    push_str(&mut s, encoding);
    push_str(&mut s, ")");
    s
}

} // verus!
