use winxmerge::folder_view::{build_folder_item_data, next_sort, sort_folder_items};
use winxmerge::models::{FileCompareStatus, FolderItem};

fn item(path: &str, status: FileCompareStatus, left: Option<u64>, lm: Option<&str>) -> FolderItem {
    FolderItem {
        relative_path: path.to_string(),
        is_directory: false,
        status,
        left_path: None,
        right_path: None,
        left_size: left,
        right_size: None,
        left_modified: lm.map(|s| s.to_string()),
        right_modified: None,
    }
}

fn sample() -> Vec<FolderItem> {
    vec![
        item("b/Zeta.txt", FileCompareStatus::Different, Some(2048), Some("2024-01-02 00:00")),
        item("alpha", FileCompareStatus::Identical, Some(10), None),
        item("B/beta", FileCompareStatus::LeftOnly, None, Some("2023-05-05 10:00")),
        item("a\\c\\d", FileCompareStatus::RightOnly, Some(10), Some("2024-01-02 00:00")),
        item("Alpha", FileCompareStatus::Different, Some(5), None),
    ]
}

#[test]
fn rows_and_summary() {
    let (data, summary) = build_folder_item_data(&sample());
    assert_eq!(summary, "Identical: 1 | Different: 2 | Left only: 1 | Right only: 1 | Total: 5");
    assert_eq!(data[0].left_size, "2.0 KB");
    assert_eq!(data[0].depth, 1);
    assert_eq!(data[3].depth, 2);
    assert_eq!(data[2].left_size, "");
    assert_eq!(data[2].status, 2);
    assert_eq!(data[1].left_modified, "");
}

fn reference_sort(items: &mut Vec<FolderItem>, column: i32, ascending: bool) {
    items.sort_by(|a, b| {
        let ord = match column {
            0 => a.relative_path.to_lowercase().cmp(&b.relative_path.to_lowercase()),
            1 => a.status.as_i32().cmp(&b.status.as_i32()),
            2 => a.left_size.unwrap_or(0).cmp(&b.left_size.unwrap_or(0)),
            3 => a.right_size.unwrap_or(0).cmp(&b.right_size.unwrap_or(0)),
            4 => a.left_modified.as_deref().unwrap_or("").cmp(b.left_modified.as_deref().unwrap_or("")),
            5 => a.right_modified.as_deref().unwrap_or("").cmp(b.right_modified.as_deref().unwrap_or("")),
            _ => std::cmp::Ordering::Equal,
        };
        if ascending { ord } else { ord.reverse() }
    });
}

#[test]
fn sorting_is_stable_and_matches_std() {
    for column in 0..7 {
        for ascending in [true, false] {
            let mut mine = sample();
            let mut theirs = sample();
            sort_folder_items(&mut mine, column, ascending);
            reference_sort(&mut theirs, column, ascending);
            let a: Vec<&str> = mine.iter().map(|i| i.relative_path.as_str()).collect();
            let b: Vec<&str> = theirs.iter().map(|i| i.relative_path.as_str()).collect();
            assert_eq!(a, b, "column {} ascending {}", column, ascending);
        }
    }
}

#[test]
fn clicking_a_column() {
    assert_eq!(next_sort(0, true, 0), (0, false));
    assert_eq!(next_sort(0, false, 2), (2, true));
}
