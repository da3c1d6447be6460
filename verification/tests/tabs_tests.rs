use winxmerge::tabs::{close_tab, force_close_tab, reorder_tab, window_title, CloseRequest};

#[test]
fn reorder_keeps_the_active_tab() {
    let mut tabs = vec!["a", "b", "c", "d"];
    let active = reorder_tab(&mut tabs, 2, 0, 3);
    assert_eq!(tabs, vec!["b", "c", "d", "a"]);
    assert_eq!(tabs[active], "c");
    let active = reorder_tab(&mut tabs, active, 3, 0);
    assert_eq!(tabs, vec!["a", "b", "c", "d"]);
    assert_eq!(tabs[active], "c");
    let active = reorder_tab(&mut tabs, active, 2, 1);
    assert_eq!(tabs, vec!["a", "c", "b", "d"]);
    assert_eq!(active, 1);
    assert_eq!(reorder_tab(&mut tabs, 1, 4, 0), 1);
    assert_eq!(reorder_tab(&mut tabs, 1, 2, 2), 1);
    assert_eq!(tabs, vec!["a", "c", "b", "d"]);
}

#[test]
fn closing_tabs_moves_the_active_index() {
    let mut tabs = vec!["a", "b", "c"];
    assert_eq!(force_close_tab(&mut tabs, 2, 0), Some(1));
    assert_eq!(tabs, vec!["b", "c"]);
    assert_eq!(force_close_tab(&mut tabs, 1, 1), Some(0));
    assert_eq!(tabs, vec!["b"]);
    assert_eq!(force_close_tab(&mut tabs, 0, 0), None);
    let mut tabs = vec!["a", "b"];
    assert_eq!(force_close_tab(&mut tabs, 0, 5), None);
    assert_eq!(force_close_tab(&mut tabs, 0, -1), None);
}

#[test]
fn close_requests() {
    assert_eq!(close_tab(0, 2, false), CloseRequest::Close);
    assert_eq!(close_tab(1, 2, true), CloseRequest::Confirm);
    assert_eq!(close_tab(0, 1, false), CloseRequest::Ignore);
    assert_eq!(close_tab(3, 2, false), CloseRequest::Ignore);
}

#[test]
fn window_titles() {
    assert_eq!(window_title("New"), "WinXMerge");
    assert_eq!(window_title("a.txt - b.txt"), "a.txt - b.txt - WinXMerge");
}
