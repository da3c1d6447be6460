use winxmerge::encoding::{decode_file, detect_eol, encode_text, is_binary, try_bom};

#[test]
fn detect_eol_classifies_lf_cr_crlf_mixed_empty_and_boundary_truncation() {
    // What: detect_eol tells LF/CR/CRLF/Mixed/"" apart, and a \r cut off at
    // the 64KiB scan limit changes nothing.
    assert_eq!(detect_eol(b"a\nb\n"), "LF");
    assert_eq!(detect_eol(b"a\r\nb\r\n"), "CRLF");
    assert_eq!(detect_eol(b"a\rb\r"), "CR");
    assert_eq!(detect_eol(b"a\r\nb\n"), "Mixed");
    assert_eq!(detect_eol(b""), "");
    assert_eq!(detect_eol(b"abc"), "");

    // CRLF file whose last \r\n straddles the limit.
    let mut crlf_cut = b"a\r\n".to_vec();
    crlf_cut.resize(65535, b'a');
    crlf_cut.extend_from_slice(b"\r\n");
    assert_eq!(detect_eol(&crlf_cut), "CRLF");

    // CR file whose last scanned byte is a \r.
    let mut cr_cut = b"a\r".to_vec();
    cr_cut.resize(65535, b'a');
    cr_cut.extend_from_slice(b"\rb");
    assert_eq!(detect_eol(&cr_cut), "CR");
}

#[test]
fn is_binary_looks_for_nul_in_first_8k_only() {
    assert!(!is_binary(b"plain text\n"));
    assert!(is_binary(b"ab\x00cd"));
    let mut late = vec![b'a'; 8192];
    late.push(0);
    assert!(!is_binary(&late));
    let mut edge = vec![b'a'; 8191];
    edge.push(0);
    assert!(is_binary(&edge));
    assert!(!is_binary(b""));
}

#[test]
fn bom_decoding_and_encoding_round_trip() {
    let (t, n) = try_bom(b"\xEF\xBB\xBFhi").unwrap();
    assert_eq!(t, "hi");
    assert_eq!(n, "UTF-8 (BOM)");
    let (t, n) = try_bom(b"\xFF\xFEh\x00i\x00").unwrap();
    assert_eq!(t, "hi");
    assert_eq!(n, "UTF-16 LE");
    let (t, n) = try_bom(b"\xFE\xFF\x00h\x00i").unwrap();
    assert_eq!(t, "hi");
    assert_eq!(n, "UTF-16 BE");
    assert!(try_bom(b"hi").is_none());

    let (t, n) = decode_file(b"\xEF\xBB\xBFabc");
    assert_eq!((t.as_str(), n.as_str()), ("abc", "UTF-8 (BOM)"));
    let (t, _) = decode_file(b"plain ascii");
    assert_eq!(t, "plain ascii");

    assert_eq!(encode_text("abc", "UTF-8"), b"abc".to_vec());
    assert_eq!(encode_text("abc", "UTF-8 (BOM)"), b"\xEF\xBB\xBFabc".to_vec());
    assert_eq!(encode_text("\u{e9}", "windows-1252"), vec![0xE9u8]);
    assert_eq!(encode_text("abc", "no-such-encoding"), b"abc".to_vec());
}

#[test]
fn utf8_without_bom_saves_back_unchanged() {
    let bytes = "grüße, naïve café — ok\nzweite Zeile\n".as_bytes();
    let (text, name) = decode_file(bytes);
    assert_eq!(name, "UTF-8");
    assert_eq!(text, "grüße, naïve café — ok\nzweite Zeile\n");
    assert_eq!(encode_text(&text, &name), bytes);
}
