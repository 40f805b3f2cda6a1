use jni_bindgen::utf16::JavaString;
use jni_bindgen::text::{
    chars_of, push_decimal, read_line_no_eol, starts_with, str_eq, trim_line_end,
};

fn decimal(n: i32) -> String {
    let mut s = String::new();
    push_decimal(&mut s, n);
    s
}

#[test]
fn decimal_rendering_matches_display() {
    assert_eq!(decimal(0), "0");
    assert_eq!(decimal(7), "7");
    assert_eq!(decimal(28), "28");
    assert_eq!(decimal(-42), "-42");
    assert_eq!(decimal(i32::MAX), "2147483647");
    assert_eq!(decimal(i32::MIN), "-2147483648");
}

#[test]
fn decimal_rendering_appends() {
    let mut s = String::from("api-level-");
    push_decimal(&mut s, 10);
    assert_eq!(s, "api-level-10");
}

#[test]
fn chars_of_keeps_every_character() {
    assert_eq!(chars_of("aé😀"), vec!['a', 'é', '😀']);
    assert!(chars_of("").is_empty());
}

#[test]
fn string_comparison() {
    assert!(str_eq("generate", "generate"));
    assert!(!str_eq("generate", "generat"));
    assert!(!str_eq("verify", "verifx"));
    assert!(str_eq("", ""));
}

#[test]
fn prefix_test() {
    assert!(starts_with("# PLACEHOLDER:x", "# PLACEHOLDER:"));
    assert!(starts_with("abc", ""));
    assert!(!starts_with("# PLACE", "# PLACEHOLDER:"));
    assert!(!starts_with("// x", "# "));
}

#[test]
fn trims_only_trailing_line_endings() {
    assert_eq!(trim_line_end("abc\r\n"), "abc");
    assert_eq!(trim_line_end("a\n\r\n\r"), "a");
    assert_eq!(trim_line_end("\r\n"), "");
    assert_eq!(trim_line_end("a\rb"), "a\rb");
    assert_eq!(trim_line_end("  x  "), "  x  ");
}

#[test]
fn trim_is_idempotent() {
    let once = trim_line_end("line\n\n");
    assert_eq!(trim_line_end(&once), once);
}

#[test]
fn read_line_appends_and_strips() {
    let mut buffer = String::from("x");
    let n = read_line_no_eol("y\r\n", &mut buffer);
    assert_eq!(buffer, "xy");
    assert_eq!(n, 3);
}

#[test]
fn read_line_counts_bytes() {
    let mut buffer = String::new();
    let n = read_line_no_eol("é\n", &mut buffer);
    assert_eq!(buffer, "é");
    assert_eq!(n, 3);
}

#[test]
fn read_line_strips_into_earlier_contents() {
    let mut buffer = String::from("a\n");
    let n = read_line_no_eol("", &mut buffer);
    assert_eq!(buffer, "a");
    assert_eq!(n, 0);
}

#[test]
fn read_line_without_terminator() {
    let mut buffer = String::new();
    let n = read_line_no_eol("last", &mut buffer);
    assert_eq!(buffer, "last");
    assert_eq!(n, 4);
}

#[test]
fn debug_rendering_quotes_and_escapes() {
    assert_eq!(JavaString::encode("a").debug_string(), "\"a\"");
    assert_eq!(JavaString::encode("a\"b").debug_string(), "\"a\\\"b\"");
    assert_eq!(JavaString::encode("line\n").debug_string(), "\"line\\n\"");
}
