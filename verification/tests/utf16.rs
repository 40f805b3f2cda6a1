use jni_bindgen::utf16::JavaString;

#[test]
fn encodes_basic_plane_as_single_units() {
    let s = JavaString::encode("ab");
    assert_eq!(s.utf16(), &[0x61u16, 0x62][..]);
    assert_eq!(s.jni_length(), 2);
}

#[test]
fn encodes_supplementary_plane_as_surrogate_pair() {
    let s = JavaString::encode("😀");
    assert_eq!(s.utf16(), &[0xD83Du16, 0xDE00][..]);
    assert_eq!(s.jni_length(), 2);
}

#[test]
fn encoding_matches_std() {
    let text = "héllo wörld 𝄞 ∑ \u{10FFFF}\u{FFFF}";
    let expected: Vec<u16> = text.encode_utf16().collect();
    assert_eq!(JavaString::encode(text).utf16(), &expected[..]);
}

#[test]
fn encodes_empty_text() {
    let s = JavaString::encode("");
    assert!(s.utf16().is_empty());
    assert_eq!(s.jni_length(), 0);
}

#[test]
fn decodes_valid_units() {
    let s = JavaString::from_utf16(vec![0x48, 0x69, 0xD83D, 0xDE00]);
    assert_eq!(s.to_string().ok(), Some(String::from("Hi😀")));
    assert_eq!(s.to_string_lossy(), "Hi😀");
}

#[test]
fn lone_low_surrogate_is_an_error() {
    let s = JavaString::from_utf16(vec![0x61, 0xDC00, 0x62]);
    let e = s.to_string().err().unwrap();
    assert_eq!(e.unpaired_surrogate(), 0xDC00);
    assert_eq!(s.to_string_lossy(), "a\u{FFFD}b");
}

#[test]
fn high_surrogate_without_low_is_an_error() {
    let s = JavaString::from_utf16(vec![0xD800, 0x61]);
    assert_eq!(s.to_string().err().unwrap().unpaired_surrogate(), 0xD800);
    assert_eq!(s.to_string_lossy(), "\u{FFFD}a");
}

#[test]
fn high_surrogate_at_the_end_is_an_error() {
    let s = JavaString::from_utf16(vec![0x61, 0xDBFF]);
    assert_eq!(s.to_string().err().unwrap().unpaired_surrogate(), 0xDBFF);
    assert_eq!(s.to_string_lossy(), "a\u{FFFD}");
}

#[test]
fn first_error_is_reported() {
    let s = JavaString::from_utf16(vec![0xDC01, 0xD801]);
    assert_eq!(s.to_string().err().unwrap().unpaired_surrogate(), 0xDC01);
    assert_eq!(s.to_string_lossy(), "\u{FFFD}\u{FFFD}");
}

#[test]
fn decoding_matches_std() {
    let units: Vec<u16> = vec![0x41, 0xD834, 0xDD1E, 0xDC00, 0xD800, 0xD800, 0xDC00, 0x42];
    let lossy: String = std::char::decode_utf16(units.iter().cloned())
        .map(|r| r.unwrap_or(std::char::REPLACEMENT_CHARACTER))
        .collect();
    let s = JavaString::from_utf16(units.clone());
    assert_eq!(s.to_string_lossy(), lossy);
    let strict: Result<String, _> = std::char::decode_utf16(units.iter().cloned()).collect();
    assert_eq!(
        strict.err().unwrap().unpaired_surrogate(),
        s.to_string().err().unwrap().unpaired_surrogate()
    );
}

#[test]
fn round_trip_through_utf16() {
    for text in ["", "plain", "Grüße", "日本語", "😀🎉", "a\u{FFFD}b"] {
        let s = JavaString::encode(text);
        assert_eq!(s.to_string().ok(), Some(String::from(text)));
        assert_eq!(s.to_string_lossy(), text);
    }
}

#[test]
fn debug_rendering_uses_lossy_text() {
    let s = JavaString::from_utf16(vec![0x61, 0x22, 0xD800]);
    assert_eq!(s.debug_string(), "\"a\\\"\u{FFFD}\"");
}

#[test]
fn failed_strict_decoding_shows_in_lossy_text() {
    for units in [vec![0xD800u16], vec![0x61, 0xDC00], vec![0xDBFF, 0xDBFF, 0x62]] {
        let s = JavaString::from_utf16(units);
        assert!(s.to_string().is_err());
        assert!(s.to_string_lossy().contains('\u{FFFD}'));
    }
}
