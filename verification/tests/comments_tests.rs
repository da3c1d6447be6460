use std::collections::HashMap;
use winxmerge::comments::{collect_comments, set_diff_comment};

#[test]
fn set_diff_comment_sets_and_clears() {
    let mut m: HashMap<usize, String> = HashMap::new();
    set_diff_comment(&mut m, 2, "check this".to_string());
    assert_eq!(m.get(&2).map(|s| s.as_str()), Some("check this"));
    set_diff_comment(&mut m, 2, String::new());
    assert!(m.is_empty());
    set_diff_comment(&mut m, -1, "ignored".to_string());
    assert!(m.is_empty());
}

#[test]
fn collect_comments_orders_blocks_and_drops_empty() {
    let mut m: HashMap<usize, String> = HashMap::new();
    m.insert(7, "seven".to_string());
    m.insert(1, "one".to_string());
    m.insert(4, String::new());
    m.insert(3, "three".to_string());
    let v = collect_comments("tab", "a.txt", "b.txt", &m);
    let blocks: Vec<usize> = v.iter().map(|e| e.diff_block).collect();
    assert_eq!(blocks, vec![1, 3, 7]);
    assert_eq!(v[0].comment, "one");
    assert_eq!(v[2].comment, "seven");
    assert!(v.iter().all(|e| e.tab_title == "tab" && e.left_file == "a.txt" && e.right_file == "b.txt"));
    assert!(collect_comments("t", "", "", &HashMap::new()).is_empty());
}
