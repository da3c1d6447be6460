use std::io::Write;
use winxmerge::archive::{compare_zip_archives, compare_zip_entries, format_size, is_zip_bytes, is_zip_path, ZipEntry};
use winxmerge::models::FileCompareStatus;

fn make_zip(files: &[(&str, &[u8])]) -> Vec<u8> {
    let mut w = zip::ZipWriter::new(std::io::Cursor::new(Vec::new()));
    let opts = zip::write::SimpleFileOptions::default().compression_method(zip::CompressionMethod::Stored);
    for (name, data) in files {
        w.start_file(*name, opts).unwrap();
        w.write_all(data).unwrap();
    }
    w.finish().unwrap().into_inner()
}

fn entry(name: &str, size: u64, crc: u32) -> ZipEntry {
    ZipEntry { name: name.to_string(), size, crc }
}

#[test]
fn zip_magic_and_extension() {
    assert!(is_zip_bytes(&[0x50, 0x4B, 0x03, 0x04, 0x00]));
    assert!(!is_zip_bytes(&[0x50, 0x4B, 0x03]));
    assert!(!is_zip_bytes(b"PK\x05\x06"));
    assert!(is_zip_path("a/b/Archive.ZIP"));
    assert!(!is_zip_path("a/b/archive.tar"));
    assert!(!is_zip_path("zip"));
}

#[test]
fn format_size_units() {
    assert_eq!(format_size(0), "0 B");
    assert_eq!(format_size(1023), "1023 B");
    assert_eq!(format_size(1024), "1.0 KB");
    assert_eq!(format_size(1536), "1.5 KB");
    assert_eq!(format_size(1024 * 1024), "1.0 MB");
    assert_eq!(format_size(5 * 1024 * 1024 + 512 * 1024), "5.5 MB");
}

#[test]
fn format_size_matches_float_formatting() {
    let mut values: Vec<u64> = (0..5000u64).map(|i| i * 37).collect();
    values.extend([1280u64, 1792, 2304, 1048576 + 52428, 1048576 * 3 + 262144, 1u64 << 40, (1u64 << 50) + 12345]);
    for b in values {
        let expected = if b < 1024 {
            format!("{} B", b)
        } else if b < 1024 * 1024 {
            format!("{:.1} KB", b as f64 / 1024.0)
        } else {
            format!("{:.1} MB", b as f64 / (1024.0 * 1024.0))
        };
        assert_eq!(format_size(b), expected, "bytes = {}", b);
    }
}

#[test]
fn zip_entries_compare_by_crc_and_size() {
    let left = vec![entry("b.txt", 3, 7), entry("dir/", 0, 0), entry("a.txt", 10, 1), entry("gone.txt", 1, 1)];
    let right = vec![entry("a.txt", 10, 2), entry("b.txt", 3, 7), entry("dir/", 0, 9), entry("new.txt", 2048, 5)];
    let items = compare_zip_entries(&left, &right, "L.zip", "R.zip");
    let paths: Vec<&str> = items.iter().map(|i| i.relative_path.as_str()).collect();
    assert_eq!(paths, vec!["a.txt", "b.txt", "dir", "gone.txt", "new.txt"]);
    assert_eq!(items[0].status, FileCompareStatus::Different);
    assert_eq!(items[1].status, FileCompareStatus::Identical);
    assert_eq!(items[2].status, FileCompareStatus::Identical);
    assert!(items[2].is_directory);
    assert_eq!(items[2].left_size, None);
    assert_eq!(items[3].status, FileCompareStatus::LeftOnly);
    assert_eq!(items[4].status, FileCompareStatus::RightOnly);
    assert_eq!(items[0].left_path.as_deref(), Some("L.zip::a.txt"));
    assert_eq!(items[4].right_path.as_deref(), Some("R.zip::new.txt"));
    assert_eq!(items[4].left_path, None);
    assert_eq!(items[4].right_size, Some(2048));
    assert_eq!(items[4].right_modified.as_deref(), Some("2.0 KB"));
    assert_eq!(items[1].left_modified.as_deref(), Some("3 B"));
    assert_eq!(items[2].left_modified.as_deref(), Some(""));
}

#[test]
fn later_entry_of_a_name_wins() {
    let left = vec![entry("a", 1, 1), entry("a", 2, 2)];
    let right = vec![entry("a", 2, 2)];
    let items = compare_zip_entries(&left, &right, "l", "r");
    assert_eq!(items.len(), 1);
    assert_eq!(items[0].status, FileCompareStatus::Identical);
    assert_eq!(items[0].left_size, Some(2));
}

#[test]
fn zip_archives_are_read_and_compared() {
    let left = make_zip(&[("same.txt", b"hello"), ("changed.txt", b"one"), ("left.txt", b"x")]);
    let right = make_zip(&[("same.txt", b"hello"), ("changed.txt", b"two"), ("right.txt", b"yy")]);
    let items = compare_zip_archives(&left, &right, "l.zip", "r.zip");
    let paths: Vec<&str> = items.iter().map(|i| i.relative_path.as_str()).collect();
    assert_eq!(paths, vec!["changed.txt", "left.txt", "right.txt", "same.txt"]);
    assert_eq!(items[0].status, FileCompareStatus::Different);
    assert_eq!(items[1].status, FileCompareStatus::LeftOnly);
    assert_eq!(items[2].status, FileCompareStatus::RightOnly);
    assert_eq!(items[3].status, FileCompareStatus::Identical);
    assert_eq!(items[3].left_size, Some(5));
}

#[test]
fn unreadable_archive_lists_only_the_other_side() {
    let right = make_zip(&[("r.txt", b"1")]);
    let items = compare_zip_archives(b"not a zip", &right, "l.zip", "r.zip");
    assert_eq!(items.len(), 1);
    assert_eq!(items[0].status, FileCompareStatus::RightOnly);
}
