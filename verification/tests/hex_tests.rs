use winxmerge::hex::{diff_block_starts, HexRows};

#[test]
fn diff_block_starts_identical_files_have_no_blocks() {
    assert_eq!(diff_block_starts(b"abcdef", b"abcdef"), Vec::<usize>::new());
}

#[test]
fn diff_block_starts_finds_one_run_in_the_middle() {
    assert_eq!(diff_block_starts(b"abcdef", b"abXYef"), vec![2]);
}

#[test]
fn diff_block_starts_treats_eof_tail_as_one_run() {
    // "aXcd" vs "abc": byte 1 differs (X vs b), byte 2 matches (c vs c),
    // then the left file's extra byte 3 ('d') has no right counterpart.
    assert_eq!(diff_block_starts(b"aXcd", b"abc"), vec![1, 3]);
}

#[test]
fn row_data_marks_bytes_past_eof_as_diff_with_blank_cell() {
    let left = vec![0u8; 17];
    let right = vec![0u8; 16];
    let rows = HexRows::new(left, right);
    assert_eq!(rows.row_count(), 2);

    let row1 = rows.row_data(1).expect("row 1 exists");
    let left_cell = row1.left.get(0).expect("left cell 0 exists");
    let right_cell = row1.right.get(0).expect("right cell 0 exists");
    assert!(left_cell.diff);
    assert!(right_cell.diff);
    assert!(!left_cell.hex.is_empty());
    assert!(right_cell.hex.is_empty());
}

#[test]
fn row_data_formats_offset_hex_and_printable_chars() {
    let left = b"Hello, hex view!\x00\x7f".to_vec();
    let right = b"Hello, HEX view!\x00\x7f".to_vec();
    let rows = HexRows::new(left, right);
    assert_eq!(rows.row_count(), 2);
    let row0 = rows.row_data(0).unwrap();
    assert_eq!(row0.offset, "00000000");
    assert_eq!(row0.left[0].hex, "48");
    assert_eq!(row0.left[0].ch, "H");
    assert!(!row0.left[0].diff);
    assert!(row0.left[7].diff);
    assert_eq!(row0.right[7].hex, "48");
    let row1 = rows.row_data(1).unwrap();
    assert_eq!(row1.offset, "00000010");
    assert_eq!(row1.left[0].hex, "00");
    assert_eq!(row1.left[0].ch, ".");
    assert_eq!(row1.left[1].hex, "7F");
    assert_eq!(row1.left[1].ch, ".");
    assert!(row1.left[2].hex.is_empty());
    assert!(!row1.left[2].diff);
    assert!(rows.row_data(2).is_none());
}
