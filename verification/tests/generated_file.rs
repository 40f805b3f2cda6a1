use jni_bindgen::generated_file::{
    first_line_has_marker, write_generated, GeneratedFileChange, MARKER_COMMENT,
};

const MARKED_RUST: &str = "// WARNING:  This file was autogenerated by jni-bindgen.  Any changes to this file may be lost!!!";
const MARKED_TOML: &str = "# WARNING:  This file was autogenerated by jni-bindgen.  Any changes to this file may be lost!!!";

#[test]
fn marker_lines() {
    assert!(first_line_has_marker(MARKED_RUST));
    assert!(first_line_has_marker(MARKED_TOML));
    assert!(!first_line_has_marker(MARKER_COMMENT));
    assert!(!first_line_has_marker("//  WARNING:  This file was autogenerated by jni-bindgen.  Any changes to this file may be lost!!!"));
    assert!(!first_line_has_marker("// WARNING:  This file was autogenerated by jni-bindgen.  Any changes to this file may be lost!!! "));
    assert!(!first_line_has_marker(""));
    assert!(!first_line_has_marker("fn main() {}"));
}

fn marked(prefix: &str, body: &str) -> String {
    format!("{}{}\n{}", prefix, MARKER_COMMENT, body)
}

#[test]
fn missing_file_is_new() {
    assert!(matches!(write_generated(None, "anything"), Ok(GeneratedFileChange::New)));
    assert!(matches!(write_generated(None, ""), Ok(GeneratedFileChange::New)));
}

#[test]
fn marked_file_is_modified_or_unchanged() {
    let file = marked("// ", "fn f() {}\n");
    assert!(matches!(write_generated(Some(&file), "fn g() {}\n"), Ok(GeneratedFileChange::Modified)));
    assert!(matches!(write_generated(Some(&file), "fn f() {}\n"), Ok(GeneratedFileChange::Unchanged)));
    let toml = marked("# ", "");
    assert!(matches!(write_generated(Some(&toml), ""), Ok(GeneratedFileChange::Unchanged)));
}

#[test]
fn marker_line_may_end_with_crlf() {
    let file = format!("{}\r\nrest", MARKED_RUST);
    assert!(matches!(write_generated(Some(&file), "rest"), Ok(GeneratedFileChange::Unchanged)));
}

#[test]
fn marker_alone_without_line_feed() {
    assert!(matches!(write_generated(Some(MARKED_TOML), ""), Ok(GeneratedFileChange::Unchanged)));
    assert!(matches!(write_generated(Some(MARKED_TOML), "x"), Ok(GeneratedFileChange::Modified)));
}

#[test]
fn unmarked_file_is_refused() {
    match write_generated(Some("fn main() {}\nmore"), "x") {
        Err(e) => assert_eq!(e.first_line, "fn main() {}"),
        Ok(_) => panic!("an unmarked file must not be overwritten"),
    }
    assert!(write_generated(Some(""), "").is_err());
    assert!(write_generated(Some("\n"), "").is_err());
}

#[test]
fn rewriting_marked_contents_is_stable() {
    let contents = marked("// ", "pub struct X;\n");
    let first = write_generated(None, &contents);
    assert!(matches!(first, Ok(GeneratedFileChange::New)));
    // The file now holds `contents`: writing them again is accepted.
    assert!(write_generated(Some(&contents), &contents).is_ok());
}

#[test]
fn unmarked_contents_lock_the_file() {
    let contents = "hand written\n";
    assert!(matches!(write_generated(None, contents), Ok(GeneratedFileChange::New)));
    for later in ["", contents, &marked("// ", "x")] {
        assert!(write_generated(Some(contents), later).is_err());
    }
}

#[test]
fn refusal_message() {
    let e = write_generated(Some("x"), "").err().unwrap();
    assert_eq!(
        e.message("\"out/a.rs\""),
        format!(
            "Cannot overwrite \"out/a.rs\":  File exists, and first line \"x\" doesn't match expected MARKER_COMMENT {:?}",
            MARKER_COMMENT
        )
    );
}

#[test]
fn only_changes_are_written() {
    assert!(GeneratedFileChange::New.writes());
    assert!(GeneratedFileChange::Modified.writes());
    assert!(!GeneratedFileChange::Unchanged.writes());
}

#[test]
fn progress_messages() {
    assert_eq!(GeneratedFileChange::New.progress_message("a.rs"), "NEW: a.rs");
    assert_eq!(GeneratedFileChange::Modified.progress_message("a.rs"), "MODIFIED: a.rs");
    assert_eq!(GeneratedFileChange::Unchanged.progress_message("a.rs"), "unchanged: a.rs...");
}
