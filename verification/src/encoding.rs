//! Binary detection, line-ending classification and text encodings.
use vstd::prelude::*;
use vstd::string::StringSliceAdditionalSpecFns;
use crate::text::{str_starts_with, str_contains, has_prefix, has_infix, occurs_at, str_to_string};

verus! {

/// How many leading bytes are searched for a NUL byte.
pub const BINARY_SCAN_LIMIT: usize = 8192;

/// How many leading bytes are scanned for line endings.
pub const EOL_SCAN_LIMIT: usize = 65536;

pub open spec fn min_int(a: int, b: int) -> int {
    if a < b { a } else { b }
}

/// A NUL byte occurs among the first 8 KiB.
pub open spec fn looks_binary(data: Seq<u8>) -> bool {
    exists|i: int| 0 <= i < min_int(data.len() as int, BINARY_SCAN_LIMIT as int) && #[trigger] data[i] == 0u8
}

/// Returns true if the data looks binary (a NUL byte in the first 8 KiB).
pub fn is_binary(data: &[u8]) -> (b: bool)
    ensures
        b == looks_binary(data@),
{
    let n = if data.len() < BINARY_SCAN_LIMIT { data.len() } else { BINARY_SCAN_LIMIT };
    let mut i: usize = 0;
    while i < n
        invariant
            i <= n,
            n as int == min_int(data@.len() as int, BINARY_SCAN_LIMIT as int),
            forall|j: int| 0 <= j < i ==> data@[j] != 0u8,
        decreases n - i,
    {
        if data[i] == 0u8 {
            assert(data@[i as int] == 0u8);
            return true;
        }
        i = i + 1;
    }
    false
}

/// Line endings seen in `b[i..n]`: (CRLF, lone CR, LF). A CR in the last
/// scanned byte is not counted when the data was cut at the scan limit, as it
/// may be the first half of a CRLF.
pub open spec fn eol_flags(b: Seq<u8>, n: int, truncated: bool, i: int) -> (bool, bool, bool)
    decreases n - i,
{
    if i >= n || i < 0 {
        (false, false, false)
    } else if b[i] == 13u8 {
        if i + 1 < n && b[i + 1] == 10u8 {
            let f = eol_flags(b, n, truncated, i + 2);
            (true, f.1, f.2)
        } else {
            let f = eol_flags(b, n, truncated, i + 1);
            (f.0, f.1 || i + 1 < n || !truncated, f.2)
        }
    } else if b[i] == 10u8 {
        let f = eol_flags(b, n, truncated, i + 1);
        (f.0, f.1, true)
    } else {
        eol_flags(b, n, truncated, i + 1)
    }
}

/// The name of the line-ending style of `bytes`: "", "CRLF", "CR", "LF" or "Mixed".
pub open spec fn eol_name(bytes: Seq<u8>) -> Seq<char> {
    let truncated = bytes.len() > EOL_SCAN_LIMIT;
    let n = min_int(bytes.len() as int, EOL_SCAN_LIMIT as int);
    let f = eol_flags(bytes, n, truncated, 0);
    if !f.0 && !f.1 && !f.2 {
        ""@
    } else if f.0 && !f.1 && !f.2 {
        "CRLF"@
    } else if !f.0 && f.1 && !f.2 {
        "CR"@
    } else if !f.0 && !f.1 && f.2 {
        "LF"@
    } else {
        "Mixed"@
    }
}

/// Detects the dominant line ending of raw file bytes (first 64 KiB).
pub fn detect_eol(bytes: &[u8]) -> (r: &'static str)
    ensures
        r@ == eol_name(bytes@),
{
    let truncated = bytes.len() > EOL_SCAN_LIMIT;
    let n = if bytes.len() < EOL_SCAN_LIMIT { bytes.len() } else { EOL_SCAN_LIMIT };
    let ghost b = bytes@;
    let mut crlf = false;
    let mut cr = false;
    let mut lf = false;
    let mut i: usize = 0;
    while i < n
        invariant
            i <= n + 1,
            n <= EOL_SCAN_LIMIT,
            n as int == min_int(b.len() as int, EOL_SCAN_LIMIT as int),
            b == bytes@,
            truncated == (b.len() > EOL_SCAN_LIMIT),
            ({
                let all = eol_flags(b, n as int, truncated, 0);
                let rest = eol_flags(b, n as int, truncated, i as int);
                all == (crlf || rest.0, cr || rest.1, lf || rest.2)
            }),
        decreases n + 1 - i,
    {
        if bytes[i] == 13u8 {
            if i + 1 < n && bytes[i + 1] == 10u8 {
                crlf = true;
                i = i + 2;
                continue;
            }
            if i + 1 < n || !truncated {
                cr = true;
            }
        } else if bytes[i] == 10u8 {
            lf = true;
        }
        i = i + 1;
    }
    assert(eol_flags(b, n as int, truncated, i as int) == (false, false, false));
    if !crlf && !cr && !lf {
        ""
    } else if crlf && !cr && !lf {
        "CRLF"
    } else if !crlf && cr && !lf {
        "CR"
    } else if !crlf && !cr && lf {
        "LF"
    } else {
        "Mixed"
    }
}

/// `String::from_utf8_lossy`: the bytes read as UTF-8, each malformed
/// sequence replaced by U+FFFD.
pub uninterp spec fn lossy_utf8(bytes: Seq<u8>) -> Seq<char>;

/// Calls `String::from_utf8_lossy`. Claimed besides the name: input that is
/// valid UTF-8 comes back as the text it encodes (nothing is replaced).
#[verifier::external_body]
fn utf8_lossy(bytes: &[u8]) -> (s: String)
    ensures
        s@ == lossy_utf8(bytes@),
        vstd::utf8::valid_utf8(bytes@) ==> s@ == vstd::utf8::decode_utf8(bytes@),
{
    String::from_utf8_lossy(bytes).into_owned()
}

/// What `encoding_rs` gives for a label and input: `None` when
/// `Encoding::for_label` knows no such label, else the result of
/// `Encoding::decode` (with BOM sniffing): the text, the name of the encoding
/// actually used, and whether malformed sequences were replaced.
pub uninterp spec fn whatwg_decode(label: Seq<char>, bytes: Seq<u8>) -> Option<(Seq<char>, Seq<char>, bool)>;

/// Looks up `label` with `encoding_rs::Encoding::for_label` and decodes
/// `bytes` with `Encoding::decode`. Claimed besides the name: the label
/// "UTF-8" decodes valid UTF-8 that does not start with a UTF-8 byte order
/// mark (so no mark is sniffed: a UTF-16 mark cannot start valid UTF-8) to
/// the text it encodes, with the encoding UTF-8 and nothing replaced.
#[verifier::external_body]
fn decode_with_label(label: &str, bytes: &[u8]) -> (r: Option<(String, String, bool)>)
    ensures
        match r {
            Some((t, n, e)) => whatwg_decode(label@, bytes@) == Some((t@, n@, e)),
            None => whatwg_decode(label@, bytes@) is None,
        },
        label@ == "UTF-8"@ && vstd::utf8::valid_utf8(bytes@) && !starts_with_utf8_bom(bytes@)
            ==> r is Some && (r->0).0@ == vstd::utf8::decode_utf8(bytes@) && (r->0).1@ == "UTF-8"@ && !(r->0).2,
{
    encoding_rs::Encoding::for_label(label.as_bytes()).map(|enc| {
        let (cow, used, had_errors) = enc.decode(bytes);
        (cow.into_owned(), used.name().to_string(), had_errors)
    })
}

/// What `encoding_rs` gives for a label and text: `None` when the label is
/// unknown, else the bytes of `Encoding::encode` (unmappable characters as
/// numeric character references).
pub uninterp spec fn whatwg_encode(label: Seq<char>, text: Seq<char>) -> Option<Seq<u8>>;

/// Looks up `label` with `Encoding::for_label` and encodes `text` with `Encoding::encode`.
#[verifier::external_body]
fn encode_with_label(label: &str, text: &str) -> (r: Option<Vec<u8>>)
    ensures
        match r {
            Some(b) => whatwg_encode(label@, text@) == Some(b@),
            None => whatwg_encode(label@, text@) is None,
        },
{
    encoding_rs::Encoding::for_label(label.as_bytes()).map(|enc| enc.encode(text).0.into_owned())
}

/// The name of the encoding that `chardetng` guesses for the whole input
/// (`EncodingDetector::feed` with `last`, then `guess(None, true)`).
pub uninterp spec fn chardet_guess(bytes: Seq<u8>) -> Seq<char>;

/// Runs `chardetng::EncodingDetector` on `bytes` and returns the guessed encoding's name.
#[verifier::external_body]
fn guess_encoding_name(bytes: &[u8]) -> (name: String)
    ensures
        name@ == chardet_guess(bytes@),
{
    let mut detector = chardetng::EncodingDetector::new();
    detector.feed(bytes, true);
    detector.guess(None, true).name().to_string()
}

pub open spec fn starts_with_bytes(b: Seq<u8>, p: Seq<u8>) -> bool {
    p.len() <= b.len() && b.take(p.len() as int) == p
}

/// The bytes start with the UTF-8 byte order mark.
pub open spec fn starts_with_utf8_bom(b: Seq<u8>) -> bool {
    starts_with_bytes(b, seq![0xEFu8, 0xBBu8, 0xBFu8])
}

/// The text of a decoding result, empty when there is none.
pub open spec fn decoded_text(r: Option<(Seq<char>, Seq<char>, bool)>) -> Seq<char> {
    match r {
        Some(t) => t.0,
        None => Seq::empty(),
    }
}

/// What a byte order mark says: the text after it and the encoding's name.
pub open spec fn bom_decoding(bytes: Seq<u8>) -> Option<(Seq<char>, Seq<char>)> {
    if starts_with_bytes(bytes, seq![0xEFu8, 0xBBu8, 0xBFu8]) {
        Some((lossy_utf8(bytes.skip(3)), "UTF-8 (BOM)"@))
    } else if starts_with_bytes(bytes, seq![0xFFu8, 0xFEu8]) {
        Some((decoded_text(whatwg_decode("UTF-16LE"@, bytes)), "UTF-16 LE"@))
    } else if starts_with_bytes(bytes, seq![0xFEu8, 0xFFu8]) {
        Some((decoded_text(whatwg_decode("UTF-16BE"@, bytes)), "UTF-16 BE"@))
    } else {
        None
    }
}

fn bytes_start_with(b: &[u8], p0: u8, p1: u8) -> (r: bool)
    ensures
        r == starts_with_bytes(b@, seq![p0, p1]),
{
    let r = b.len() >= 2 && b[0] == p0 && b[1] == p1;
    if b.len() >= 2 {
        assert(r == (b@.take(2) =~= seq![p0, p1]));
    }
    r
}

/// Decodes text that starts with a byte order mark (UTF-8, UTF-16 LE or BE).
pub fn try_bom(bytes: &[u8]) -> (r: Option<(String, String)>)
    ensures
        match r {
            Some((t, n)) => bom_decoding(bytes@) == Some((t@, n@)),
            None => bom_decoding(bytes@) is None,
        },
        starts_with_bytes(bytes@, seq![0xEFu8, 0xBBu8, 0xBFu8]) && vstd::utf8::valid_utf8(bytes@.skip(3))
            ==> (r matches Some((t, _)) && t@ == vstd::utf8::decode_utf8(bytes@.skip(3))),
{
    if bytes.len() >= 3 && bytes[0] == 0xEFu8 && bytes[1] == 0xBBu8 && bytes[2] == 0xBFu8 {
        assert(bytes@.take(3) =~= seq![0xEFu8, 0xBBu8, 0xBFu8]);
        let mut rest: Vec<u8> = Vec::new();
        let mut i: usize = 3;
        while i < bytes.len()
            invariant
                3 <= i <= bytes@.len(),
                rest@ == bytes@.subrange(3, i as int),
            decreases bytes@.len() - i,
        {
            rest.push(bytes[i]);
            assert(rest@ =~= bytes@.subrange(3, i + 1));
            i = i + 1;
        }
        assert(rest@ =~= bytes@.skip(3));
        let text = utf8_lossy(rest.as_slice());
        return Some((text, str_to_string("UTF-8 (BOM)")));
    }
    if bytes.len() >= 3 {
        assert(!(bytes@.take(3) =~= seq![0xEFu8, 0xBBu8, 0xBFu8]) ==> !starts_with_bytes(bytes@, seq![0xEFu8, 0xBBu8, 0xBFu8]));
        assert(starts_with_bytes(bytes@, seq![0xEFu8, 0xBBu8, 0xBFu8]) ==> bytes@[0] == 0xEFu8 && bytes@[1] == 0xBBu8 && bytes@[2] == 0xBFu8) by {
            if starts_with_bytes(bytes@, seq![0xEFu8, 0xBBu8, 0xBFu8]) {
                assert(bytes@.take(3)[0] == bytes@[0]);
                assert(bytes@.take(3)[1] == bytes@[1]);
                assert(bytes@.take(3)[2] == bytes@[2]);
            }
        }
    }
    if bytes_start_with(bytes, 0xFFu8, 0xFEu8) {
        let t = match decode_with_label("UTF-16LE", bytes) {
            Some((t, _, _)) => t,
            None => String::new(),
        };
        assert(t@ == decoded_text(whatwg_decode("UTF-16LE"@, bytes@)));
        return Some((t, str_to_string("UTF-16 LE")));
    }
    if bytes_start_with(bytes, 0xFEu8, 0xFFu8) {
        let t = match decode_with_label("UTF-16BE", bytes) {
            Some((t, _, _)) => t,
            None => String::new(),
        };
        assert(t@ == decoded_text(whatwg_decode("UTF-16BE"@, bytes@)));
        return Some((t, str_to_string("UTF-16 BE")));
    }
    None
}

/// The decoded text of a file and the name of its encoding: from a byte
/// order mark when there is one, else with the encoding that chardetng
/// guesses, falling back to lossy UTF-8 when that decoding hit malformed input.
pub open spec fn decoded_file(bytes: Seq<u8>) -> (Seq<char>, Seq<char>) {
    match bom_decoding(bytes) {
        Some(d) => d,
        None => {
            let name = chardet_guess(bytes);
            match whatwg_decode(name, bytes) {
                Some((t, _, false)) => (t, name),
                _ => (lossy_utf8(bytes), "UTF-8 (lossy)"@),
            }
        },
    }
}

/// Detects the encoding of raw bytes and decodes them; returns the text and
/// the encoding's name.
pub fn decode_file(bytes: &[u8]) -> (r: (String, String))
    ensures
        (r.0@, r.1@) == decoded_file(bytes@),
        // Saving in the detected encoding gives the bytes back for UTF-8 text
        // that starts with a byte order mark.
        starts_with_bytes(bytes@, seq![0xEFu8, 0xBBu8, 0xBFu8]) && vstd::utf8::valid_utf8(bytes@.skip(3))
            ==> encoded_text(r.0@, r.1@, vstd::utf8::encode_utf8(r.0@)) == bytes@,
        // ... and for UTF-8 text without one that the detector takes for UTF-8.
        !starts_with_utf8_bom(bytes@) && vstd::utf8::valid_utf8(bytes@)
            && chardet_guess(bytes@) == "UTF-8"@ ==> encoded_text(r.0@, r.1@, vstd::utf8::encode_utf8(r.0@)) == bytes@,
{
    if let Some(d) = try_bom(bytes) {
        proof {
            if starts_with_bytes(bytes@, seq![0xEFu8, 0xBBu8, 0xBFu8]) && vstd::utf8::valid_utf8(bytes@.skip(3)) {
                let rest = bytes@.skip(3);
                vstd::utf8::decode_utf8_encode_utf8(rest);
                reveal_strlit("UTF-8 (BOM)");
                reveal_strlit("UTF-8");
                reveal_strlit("BOM");
                let name = d.1@;
                assert(name == "UTF-8 (BOM)"@);
                assert(name.take(5) =~= "UTF-8"@);
                assert(occurs_at(name, "BOM"@, 7)) by {
                    assert(name.subrange(7, 10) =~= "BOM"@);
                }
                assert(seq![0xEFu8, 0xBBu8, 0xBFu8] + rest =~= bytes@);
            }
        }
        return d;
    }
    proof {
        if vstd::utf8::valid_utf8(bytes@) && bytes@.len() >= 2 {
            assert(bytes@.take(2)[0] == bytes@[0]);
            assert(!starts_with_bytes(bytes@, seq![0xFFu8, 0xFEu8]));
            assert(!starts_with_bytes(bytes@, seq![0xFEu8, 0xFFu8]));
        }
    }
    let name = guess_encoding_name(bytes);
    proof {
        if !starts_with_bytes(bytes@, seq![0xEFu8, 0xBBu8, 0xBFu8]) && vstd::utf8::valid_utf8(bytes@) && chardet_guess(bytes@) == "UTF-8"@ {
            vstd::utf8::decode_utf8_encode_utf8(bytes@);
            reveal_strlit("UTF-8");
            reveal_strlit("BOM");
            assert("UTF-8"@.take(5) =~= "UTF-8"@);
            assert(!has_infix("UTF-8"@, "BOM"@)) by {
                if has_infix("UTF-8"@, "BOM"@) {
                    let i = choose|i: int| #[trigger] occurs_at("UTF-8"@, "BOM"@, i);
                    assert("UTF-8"@.subrange(i, i + 3)[0] == "UTF-8"@[i]);
                    assert("UTF-8"@.subrange(i, i + 3)[0] == 'B');
                }
            }
        }
    }
    match decode_with_label(name.as_str(), bytes) {
        Some((text, _, had_errors)) => {
            if had_errors {
                (utf8_lossy(bytes), str_to_string("UTF-8 (lossy)"))
            } else {
                (text, name)
            }
        },
        None => (utf8_lossy(bytes), str_to_string("UTF-8 (lossy)")),
    }
}

/// The bytes written for `text` in the encoding named `name`: UTF-8 (with a
/// BOM when the name mentions one) for names starting with "UTF-8", else the
/// named encoding, else UTF-8.
pub open spec fn encoded_text(text: Seq<char>, name: Seq<char>, utf8: Seq<u8>) -> Seq<u8> {
    if has_prefix(name, "UTF-8"@) {
        if has_infix(name, "BOM"@) {
            seq![0xEFu8, 0xBBu8, 0xBFu8] + utf8
        } else {
            utf8
        }
    } else {
        match whatwg_encode(name, text) {
            Some(b) => b,
            None => utf8,
        }
    }
}

/// Encodes text back to the named encoding.
pub fn encode_text(text: &str, encoding_name: &str) -> (bytes: Vec<u8>)
    ensures
        bytes@ == encoded_text(text@, encoding_name@, text.spec_bytes()),
{
    let utf8 = text.as_bytes();
    if str_starts_with(encoding_name, "UTF-8") {
        if str_contains(encoding_name, "BOM") {
            let mut out: Vec<u8> = vec![0xEFu8, 0xBBu8, 0xBFu8];
            let mut i: usize = 0;
            while i < utf8.len()
                invariant
                    i <= utf8@.len(),
                    out@ == seq![0xEFu8, 0xBBu8, 0xBFu8] + utf8@.take(i as int),
                decreases utf8@.len() - i,
            {
                out.push(utf8[i]);
                assert(utf8@.take(i + 1) =~= utf8@.take(i as int).push(utf8@[i as int]));
                assert(out@ =~= seq![0xEFu8, 0xBBu8, 0xBFu8] + utf8@.take(i + 1));
                i = i + 1;
            }
            assert(utf8@.take(utf8@.len() as int) =~= utf8@);
            out
        } else {
            slice_to_vec(utf8)
        }
    } else {
        match encode_with_label(encoding_name, text) {
            Some(b) => b,
            None => slice_to_vec(utf8),
        }
    }
}

fn slice_to_vec(b: &[u8]) -> (v: Vec<u8>)
    ensures
        v@ == b@,
{
    let mut v: Vec<u8> = Vec::new();
    let mut i: usize = 0;
    while i < b.len()
        invariant
            i <= b@.len(),
            v@ == b@.take(i as int),
        decreases b@.len() - i,
    {
        v.push(b[i]);
        assert(b@.take(i + 1) =~= b@.take(i as int).push(b@[i as int]));
        i = i + 1;
    }
    assert(b@.take(b@.len() as int) =~= b@);
    v
}

} // verus!
