use std::path::{Path, PathBuf};
use winxmerge::project::{
    folder_depth_for, parse_project, project_entry_for, white_spaces_of, whitespace_flags, write_project, ProjectEntry,
    ProjectOptions,
};

fn base() -> PathBuf {
    PathBuf::from("/base/dir")
}

/// A parsed path as a `PathBuf`.
fn resolved(p: &Option<String>) -> Option<PathBuf> {
    p.as_ref().map(PathBuf::from)
}

fn s(p: &str) -> Option<String> {
    Some(p.to_string())
}

#[test]
fn reads_supported_elements_and_ignores_unknown_ones() {
    let xml = r#"<project>
        <paths>
            <left>left.txt</left>
            <middle>base.txt</middle>
            <right>right.txt</right>
            <subfolders>0</subfolders>
            <filter>*.log</filter>
            <left-readonly>0</left-readonly>
            <ignore-case>1</ignore-case>
            <ignore-blank-lines>1</ignore-blank-lines>
            <ignore-carriage-return-diff>1</ignore-carriage-return-diff>
        </paths>
    </project>"#;
    let entries = parse_project(xml, "/base/dir").unwrap();
    assert_eq!(entries.len(), 1);
    let e = &entries[0];
    assert_eq!(resolved(&e.left), Some(base().join("left.txt")));
    assert_eq!(resolved(&e.middle), Some(base().join("base.txt")));
    assert_eq!(resolved(&e.right), Some(base().join("right.txt")));
    assert_eq!(e.subfolders, Some(false));
    assert_eq!(e.ignore_case, Some(true));
    assert_eq!(e.ignore_blank_lines, Some(true));
    assert_eq!(e.ignore_eol, Some(true));
}

#[test]
fn multiple_paths_elements_become_multiple_entries() {
    let xml = r#"<project>
        <paths><left>a1.txt</left><right>a2.txt</right></paths>
        <paths><left>b1.txt</left><right>b2.txt</right></paths>
    </project>"#;
    let entries = parse_project(xml, "/base/dir").unwrap();
    assert_eq!(entries.len(), 2);
    assert_eq!(resolved(&entries[0].left), Some(base().join("a1.txt")));
    assert_eq!(resolved(&entries[1].left), Some(base().join("b1.txt")));
}

#[test]
fn relative_path_resolves_against_base_dir_absolute_path_kept() {
    let xml = r#"<project>
        <paths>
            <left>sub/rel.txt</left>
            <right>/abs/right.txt</right>
        </paths>
    </project>"#;
    let entries = parse_project(xml, "/base/dir").unwrap();
    assert_eq!(resolved(&entries[0].left), Some(base().join("sub/rel.txt")));
    assert_eq!(resolved(&entries[0].right), Some(PathBuf::from("/abs/right.txt")));
}

#[test]
fn white_spaces_out_of_range_is_none_in_range_is_some() {
    for (value, expected) in [("0", Some(0)), ("1", Some(1)), ("2", Some(2)), ("3", None)] {
        let xml = format!(r#"<project><paths><white-spaces>{value}</white-spaces></paths></project>"#);
        let entries = parse_project(&xml, "/base/dir").unwrap();
        assert_eq!(entries[0].white_spaces, expected, "white-spaces={value}");
    }
}

#[test]
fn compare_method_out_of_range_is_none_in_range_is_some() {
    for (value, expected) in [("0", Some(0)), ("6", Some(6)), ("7", None)] {
        let xml = format!(r#"<project><paths><compare-method>{value}</compare-method></paths></project>"#);
        let entries = parse_project(&xml, "/base/dir").unwrap();
        assert_eq!(entries[0].compare_method, expected, "compare-method={value}");
    }
}

#[test]
fn bom_prefixed_input_parses() {
    let xml = "\u{FEFF}<project><paths><left>a.txt</left></paths></project>";
    let entries = parse_project(xml, "/base/dir").unwrap();
    assert_eq!(resolved(&entries[0].left), Some(base().join("a.txt")));
}

#[test]
fn malformed_xml_is_err() {
    let xml = "<project><paths></paths";
    assert!(parse_project(xml, "/base/dir").is_err());
}

#[test]
fn root_element_other_than_project_is_err() {
    let xml = "<not-a-project></not-a-project>";
    let err = parse_project(xml, "/base/dir").unwrap_err();
    assert_eq!(err, "expected <project> as the root element, found <not-a-project>");
}

#[test]
fn write_then_parse_round_trip_keeps_paths_needing_escape_intact() {
    let entry = ProjectEntry {
        left: s("/a & b/<left>.txt"),
        right: s("/a \"b\" 'c'/right.txt"),
        ..ProjectEntry::default()
    };
    let xml = write_project(&entry);
    let parsed = parse_project(&xml, "/base/dir").unwrap();
    assert_eq!(parsed.len(), 1);
    assert_eq!(parsed[0].left, entry.left);
    assert_eq!(parsed[0].right, entry.right);
}

#[test]
fn three_way_entry_writes_middle_two_file_entry_does_not() {
    let three_way = ProjectEntry {
        left: s("/l.txt"),
        middle: s("/m.txt"),
        right: s("/r.txt"),
        ..ProjectEntry::default()
    };
    assert!(write_project(&three_way).contains("<middle>"));

    let two_file = ProjectEntry {
        left: s("/l.txt"),
        right: s("/r.txt"),
        ..ProjectEntry::default()
    };
    assert!(!write_project(&two_file).contains("<middle>"));
}

#[test]
fn folder_entry_writes_subfolders_and_compare_method_file_entry_does_not() {
    let folder = ProjectEntry {
        left: s("/left-dir"),
        right: s("/right-dir"),
        subfolders: Some(true),
        compare_method: Some(2),
        ..ProjectEntry::default()
    };
    let xml = write_project(&folder);
    assert!(xml.contains("<subfolders>1</subfolders>"));
    assert!(xml.contains("<compare-method>2</compare-method>"));

    let file = ProjectEntry {
        left: s("/l.txt"),
        right: s("/r.txt"),
        ..ProjectEntry::default()
    };
    let xml = write_project(&file);
    assert!(!xml.contains("<subfolders>"));
    assert!(!xml.contains("<compare-method>"));
}

#[test]
fn text_options_are_always_written_and_white_spaces_round_trips() {
    for (value, expected) in [(0, Some(0)), (1, Some(1)), (2, Some(2))] {
        let entry = ProjectEntry {
            left: s("/l.txt"),
            right: s("/r.txt"),
            white_spaces: Some(value),
            ignore_case: Some(true),
            ignore_blank_lines: Some(false),
            ignore_eol: Some(true),
            ..ProjectEntry::default()
        };
        let xml = write_project(&entry);
        assert!(xml.contains("<ignore-case>1</ignore-case>"));
        assert!(xml.contains("<ignore-blank-lines>0</ignore-blank-lines>"));
        assert!(xml.contains("<ignore-carriage-return-diff>1</ignore-carriage-return-diff>"));
        let parsed = parse_project(&xml, "/base/dir").unwrap();
        assert_eq!(parsed[0].white_spaces, expected, "white_spaces={value}");
    }
}

#[test]
fn write_project_exact_text_and_negative_number() {
    let entry = ProjectEntry {
        left: s("a<b"),
        white_spaces: Some(-3),
        ..ProjectEntry::default()
    };
    assert_eq!(
        write_project(&entry),
        "<?xml version=\"1.0\" encoding=\"UTF-8\"?>\n<project>\n\t<paths>\n\t\t<left>a&lt;b</left>\n\t\t<white-spaces>-3</white-spaces>\n\t</paths>\n</project>\n"
    );
    let _ = Path::new("/");
}

#[test]
fn white_spaces_codes_round_trip() {
    assert_eq!(white_spaces_of(false, true), 0);
    assert_eq!(white_spaces_of(true, false), 1);
    assert_eq!(white_spaces_of(true, true), 2);
    assert_eq!(whitespace_flags(0), (false, false));
    assert_eq!(whitespace_flags(1), (true, false));
    assert_eq!(whitespace_flags(2), (true, true));
    for code in 0..=2 {
        let (a, b) = whitespace_flags(code);
        assert_eq!(white_spaces_of(a, b), code);
    }
}

#[test]
fn folder_depth_from_project() {
    assert_eq!(folder_depth_for(Some(true), 1), 0);
    assert_eq!(folder_depth_for(Some(true), 3), 3);
    assert_eq!(folder_depth_for(Some(false), 0), 1);
    assert_eq!(folder_depth_for(None, 4), 4);
}

#[test]
fn project_entry_for_a_folder_tab() {
    let opts = ProjectOptions {
        ignore_whitespace: true,
        ignore_whitespace_all: false,
        ignore_case: true,
        ignore_blank_lines: false,
        ignore_eol: false,
        folder_max_depth: 0,
        folder_compare_method: 9,
    };
    let e = project_entry_for("/a", None, "/b", true, &opts);
    assert_eq!(e.left.as_deref(), Some("/a"));
    assert_eq!(e.middle, None);
    assert_eq!(e.white_spaces, Some(1));
    assert_eq!(e.subfolders, Some(true));
    assert_eq!(e.compare_method, None);
    let f = project_entry_for("/a", Some("/m"), "/b", false, &ProjectOptions { folder_compare_method: 2, ..opts });
    assert_eq!(f.subfolders, None);
    assert_eq!(f.compare_method, None);
    assert_eq!(f.middle.as_deref(), Some("/m"));
    assert!(write_project(&f).contains("<middle>/m</middle>"));
}
