use nodepat::codec::Encoding;
use nodepat::codec::decode_bytes;
use nodepat::codec::decode_latin1;
use nodepat::codec::decode_utf16_be;
use nodepat::codec::decode_utf16_le;
use nodepat::codec::encode_bytes;
use nodepat::codec::encode_latin1;
use nodepat::codec::encode_utf16_be;
use nodepat::codec::encode_utf16_le;

fn chars(s: &str) -> Vec<char> {
    s.chars().collect()
}

fn string_of(v: &[char]) -> String {
    v.iter().collect()
}

#[test]
fn test_utf16_le_round_trip() {
    // Latin-1-range text, a supplementary character, and an empty text all
    // survive encode-then-decode with the tag preserved.
    for text in ["héllo", "a\u{10348}b", "", "plain"] {
        let t = chars(text);
        let bytes = encode_bytes(&t, Encoding::Utf16Le);
        assert_eq!(&bytes[..2], &[0xFF, 0xFE]);
        let (decoded, enc) = decode_bytes(&bytes).expect("well-formed UTF-16 LE");
        assert_eq!(string_of(&decoded), text);
        assert_eq!(enc, Encoding::Utf16Le);
    }
}

#[test]
fn test_utf16_be_round_trip() {
    for text in ["héllo", "a\u{10348}b", ""] {
        let t = chars(text);
        let bytes = encode_bytes(&t, Encoding::Utf16Be);
        assert_eq!(&bytes[..2], &[0xFE, 0xFF]);
        let (decoded, enc) = decode_bytes(&bytes).expect("well-formed UTF-16 BE");
        assert_eq!(string_of(&decoded), text);
        assert_eq!(enc, Encoding::Utf16Be);
    }
}

#[test]
fn test_utf16_decode_then_encode_reproduces_bytes() {
    // FF FE BOM, then "hi" as little-endian code units.
    let bytes = vec![0xFF, 0xFE, 0x68, 0x00, 0x69, 0x00];
    let (text, enc) = decode_bytes(&bytes).expect("well-formed");
    assert_eq!(string_of(&text), "hi");
    assert_eq!(enc, Encoding::Utf16Le);
    let rewritten = encode_bytes(&text, enc);
    assert_eq!(rewritten, bytes);
}

#[test]
fn test_utf16_odd_length_rejected() {
    assert!(decode_utf16_le(&[0x68, 0x00, 0x69]).is_none());
    assert!(decode_utf16_be(&[0x00]).is_none());
    // Through the cascade: a BOM followed by an odd byte count fails.
    assert!(decode_bytes(&[0xFF, 0xFE, 0x68]).is_none());
}

#[test]
fn test_utf16_unpaired_surrogate_rejected() {
    // 0xD800 alone is a high surrogate with no low surrogate after it.
    assert!(decode_utf16_le(&[0x00, 0xD8]).is_none());
    // A low surrogate first is just as ill-formed.
    assert!(decode_utf16_le(&[0x00, 0xDC, 0x00, 0xD8]).is_none());
    // A proper pair decodes.
    let pair = decode_utf16_le(&[0x00, 0xD8, 0x48, 0xDF]).expect("paired surrogates");
    assert_eq!(string_of(&pair), "\u{10348}");
}

#[test]
fn test_utf8_bom_stripped() {
    // A UTF-8 byte-order mark is stripped and the result tagged UTF-8.
    let mut bytes = vec![0xEF, 0xBB, 0xBF];
    bytes.extend_from_slice("hello".as_bytes());
    let (text, enc) = decode_bytes(&bytes).expect("always decodes");
    assert_eq!(string_of(&text), "hello");
    assert_eq!(enc, Encoding::Utf8);
}

#[test]
fn test_utf8_bom_lossy_payload() {
    // Behind the byte-order mark, invalid sequences become U+FFFD instead of
    // failing.
    let bytes = vec![0xEF, 0xBB, 0xBF, b'a', 0xFF, b'b'];
    let (text, enc) = decode_bytes(&bytes).expect("always decodes");
    assert_eq!(string_of(&text), "a\u{FFFD}b");
    assert_eq!(enc, Encoding::Utf8);
}

#[test]
fn test_utf8_content_sniffing() {
    let bytes = "grüße \u{10348}".as_bytes().to_vec();
    let (text, enc) = decode_bytes(&bytes).expect("valid UTF-8");
    assert_eq!(string_of(&text), "grüße \u{10348}");
    assert_eq!(enc, Encoding::Utf8);
    let rewritten = encode_bytes(&text, enc);
    assert_eq!(rewritten, bytes);
}

#[test]
fn test_latin1_fallback() {
    // 0xE9 is not valid UTF-8 on its own, so the cascade falls back to
    // Latin-1, where it is "é".
    let bytes = vec![b'c', b'a', b'f', 0xE9];
    let (text, enc) = decode_bytes(&bytes).expect("latin-1 accepts anything");
    assert_eq!(string_of(&text), "café");
    assert_eq!(enc, Encoding::Latin1);
    let rewritten = encode_bytes(&text, enc);
    assert_eq!(rewritten, bytes);
}

#[test]
fn test_latin1_encode_lossy() {
    // Characters above U+00FF silently become '?'.
    let t = chars("aé\u{2603}");
    let bytes = encode_latin1(&t);
    assert_eq!(bytes, vec![b'a', 0xE9, b'?']);
    let back = decode_latin1(&bytes);
    assert_eq!(string_of(&back), "aé?");
}

#[test]
fn test_overlong_and_surrogate_utf8_rejected() {
    // Overlong "/" (C0 AF) is not strict UTF-8: the cascade falls back to
    // Latin-1 rather than decoding it.
    let (_, enc) = decode_bytes(&[0xC0, 0xAF]).expect("always decodes");
    assert_eq!(enc, Encoding::Latin1);
    // An encoded surrogate (ED A0 80) likewise.
    let (_, enc) = decode_bytes(&[0xED, 0xA0, 0x80]).expect("always decodes");
    assert_eq!(enc, Encoding::Latin1);
}

#[test]
fn test_utf16_byte_order_functions() {
    let t = chars("Az");
    assert_eq!(encode_utf16_le(&t), vec![0x41, 0x00, 0x7A, 0x00]);
    assert_eq!(encode_utf16_be(&t), vec![0x00, 0x41, 0x00, 0x7A]);
}

#[test]
fn test_encoding_names() {
    assert_eq!(Encoding::Utf8.name(), "UTF-8");
    assert_eq!(Encoding::Utf16Le.name(), "UTF-16 LE");
    assert_eq!(Encoding::Utf16Be.name(), "UTF-16 BE");
    assert_eq!(Encoding::Latin1.name(), "Latin1");
}

#[test]
fn test_empty_input_decodes_as_utf8() {
    let (text, enc) = decode_bytes(&[]).expect("empty is valid UTF-8");
    assert!(text.is_empty());
    assert_eq!(enc, Encoding::Utf8);
}

#[test]
fn test_lossy_replaces_maximal_subpart() {
    // A truncated three-byte sequence (E2 82) is one maximal well-formed
    // prefix: it becomes a single replacement character, and decoding
    // resynchronizes on the byte after it.
    let bytes = vec![0xEF, 0xBB, 0xBF, 0xE2, 0x82, b'a'];
    let (text, _) = decode_bytes(&bytes).expect("always decodes");
    assert_eq!(string_of(&text), "\u{FFFD}a");
}
