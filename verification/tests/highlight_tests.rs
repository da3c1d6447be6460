use winxmerge::highlight::{detect_file_type, dominant_highlights, grammar_for, highlight_lines, Grammar, HlEvent};

#[test]
fn file_types_by_extension() {
    assert_eq!(detect_file_type("src/main.rs"), "Rust");
    assert_eq!(detect_file_type("a.mjs"), "JavaScript");
    assert_eq!(detect_file_type("a.jsx"), "JSX");
    assert_eq!(detect_file_type("a.h"), "C Header");
    assert_eq!(detect_file_type("a.markdown"), "Markdown");
    assert_eq!(detect_file_type("a.RS"), "Plain Text");
    assert_eq!(detect_file_type("Makefile"), "Plain Text");
}

#[test]
fn grammars_by_extension() {
    assert_eq!(grammar_for("rs"), Some(Grammar::Rust));
    assert_eq!(grammar_for("cjs"), Some(Grammar::JavaScript));
    assert_eq!(grammar_for("pyw"), Some(Grammar::Python));
    assert_eq!(grammar_for("json"), Some(Grammar::Json));
    assert_eq!(grammar_for("h"), Some(Grammar::C));
    assert_eq!(grammar_for("ts"), None);
}

#[test]
fn dominant_highlight_per_line() {
    // "ab\ncdef\ng": lines start at 0, 3, 8.
    let src = "ab\ncdef\ng";
    let events = vec![
        HlEvent::Start(2),
        HlEvent::Source(0, 2),
        HlEvent::End,
        HlEvent::Source(2, 4),
        HlEvent::Start(1),
        HlEvent::Source(4, 6),
        HlEvent::Start(0),
        HlEvent::Source(6, 8),
        HlEvent::End,
    ];
    // Line 1 gets 2 bytes of kind 1 and 2 of kind 0 (the span 6..8 reaches
    // line 2 too): the first of equals wins.
    assert_eq!(dominant_highlights(src, 3, &events), vec![2, 0, 0]);
}

#[test]
fn events_after_an_error_are_ignored() {
    let events = vec![HlEvent::Start(3), HlEvent::Failed, HlEvent::Source(0, 1)];
    assert_eq!(dominant_highlights("x", 1, &events), vec![-1]);
    let events = vec![HlEvent::Start(30), HlEvent::Source(0, 1)];
    assert_eq!(dominant_highlights("x", 1, &events), vec![-1]);
}

#[test]
fn unknown_extension_is_plain() {
    assert_eq!(highlight_lines("a\nb\nc\n", "notes.txt"), vec![-1, -1, -1]);
    assert_eq!(highlight_lines("", "x.rs"), vec![-1]);
}

#[test]
fn rust_comment_line_is_highlighted_as_comment() {
    let h = highlight_lines("// just a comment\nlet x = 1;\n", "lib.rs");
    assert_eq!(h.len(), 2);
    assert_eq!(h[0], 2);
}

#[test]
fn json_strings_are_highlighted() {
    let h = highlight_lines("\"just a long string value\"\n", "data.json");
    assert_eq!(h, vec![1]);
}
