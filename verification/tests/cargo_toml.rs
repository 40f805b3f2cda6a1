use jni_bindgen::android_sys_gen;
use jni_bindgen::bindgen;
use jni_bindgen::cargo_toml::{
    toml_header_text, feature_line, push_api_level_features, sharded_features, unexpected_placeholder,
    ApiLevelRange, FeatureDependencies,
};
use jni_bindgen::generated_file::first_line_has_marker;

const HEADER: &str = "# WARNING:  This file was autogenerated by jni-bindgen.  Any changes to this file may be lost!!!\n\n";

fn lines(v: &[&str]) -> Vec<String> {
    v.iter().map(|s| s.to_string()).collect()
}

fn features() -> Vec<FeatureDependencies> {
    vec![
        FeatureDependencies { name: "a".to_string(), dependencies: vec![] },
        FeatureDependencies {
            name: "b".to_string(),
            dependencies: vec!["a".to_string(), "c".to_string()],
        },
    ]
}

fn full_template() -> Vec<String> {
    lines(&[
        "[package]\r\n",
        "# PLACEHOLDER:FEATURES:api-level-NN\n",
        "# PLACEHOLDER:FEATURES:sharded-api",
        "# PLACEHOLDER:FEATURES:docs.rs",
        "# PLACEHOLDER:other",
    ])
}

#[test]
fn api_level_features_depend_on_the_level_below() {
    let mut out = String::new();
    push_api_level_features(&mut out, ApiLevelRange { start: 7, end: 9 });
    assert_eq!(
        out,
        "api-level-7 = []\napi-level-8 = [\"api-level-7\"]\napi-level-9 = [\"api-level-8\"]\n"
    );
}

#[test]
fn api_level_features_of_one_level() {
    let mut out = String::new();
    push_api_level_features(&mut out, ApiLevelRange { start: 28, end: 28 });
    assert_eq!(out, "api-level-28 = []\n");
}

#[test]
fn api_level_features_of_an_empty_range() {
    let mut out = String::from("x");
    push_api_level_features(&mut out, ApiLevelRange { start: 9, end: 7 });
    assert_eq!(out, "x");
}

#[test]
fn api_level_features_at_the_top_of_i32() {
    let mut out = String::new();
    push_api_level_features(&mut out, ApiLevelRange { start: i32::MAX - 1, end: i32::MAX });
    assert_eq!(
        out,
        "api-level-2147483646 = []\napi-level-2147483647 = [\"api-level-2147483646\"]\n"
    );
}

#[test]
fn feature_line_joins_dependencies() {
    let deps = vec!["\"x\"".to_string(), "\"y\"".to_string()];
    assert_eq!(feature_line("\"f\"", &deps), "\"f\" = [\"x\", \"y\"]\n");
    assert_eq!(feature_line("\"g\"", &vec![]), "\"g\" = []\n");
}

#[test]
fn sharded_features_quote_names() {
    assert_eq!(sharded_features(&features()), "\"a\" = []\n\"b\" = [\"a\", \"c\"]\n");
    let odd = vec![FeatureDependencies {
        name: "q\"uote".to_string(),
        dependencies: vec!["new\nline".to_string()],
    }];
    assert_eq!(sharded_features(&odd), "\"q\\\"uote\" = [\"new\\nline\"]\n");
}

#[test]
fn placeholder_recognition() {
    assert!(unexpected_placeholder("# PLACEHOLDER:other"));
    assert!(!unexpected_placeholder("# PLACEHOLDER:FEATURES:docs.rs"));
    assert!(!unexpected_placeholder("# PLACEHOLDER:FEATURES:sharded-api"));
    assert!(!unexpected_placeholder("# PLACEHOLDER:FEATURES:api-level-NN"));
    assert!(!unexpected_placeholder("[package]"));
}

#[test]
fn bindgen_expands_every_placeholder() {
    let r = bindgen::generate_toml(
        &full_template(),
        Some(ApiLevelRange { start: 7, end: 9 }),
        &features(),
    );
    let expected = String::from(HEADER)
        + "[package]\n"
        + "# PLACEHOLDER:FEATURES:api-level-NN:BEGIN\n"
        + "api-level-7 = []\n"
        + "api-level-8 = [\"api-level-7\"]\n"
        + "api-level-9 = [\"api-level-8\"]\n"
        + "# PLACEHOLDER:FEATURES:api-level-NN:END\n"
        + "# PLACEHOLDER:FEATURES:sharded-api:BEGIN\n"
        + "\"a\" = []\n"
        + "\"b\" = [\"a\", \"c\"]\n"
        + "\"all\" = []\n"
        + "# PLACEHOLDER:FEATURES:sharded-api:END\n"
        + "# PLACEHOLDER:FEATURES:docs.rs:BEGIN\n"
        + "features = [\"all\", \"api-level-9\", \"force-define\"]\n"
        + "# PLACEHOLDER:FEATURES:docs.rs:END\n"
        + "# PLACEHOLDER:other\n";
    assert_eq!(r.text, expected);
    assert_eq!(r.unexpected_placeholders, vec!["# PLACEHOLDER:other".to_string()]);
}

#[test]
fn bindgen_without_api_levels() {
    let r = bindgen::generate_toml(&full_template(), None, &vec![]);
    let expected = String::from(HEADER)
        + "[package]\n"
        + "# PLACEHOLDER:FEATURES:api-level-NN:N/A\n"
        + "# PLACEHOLDER:FEATURES:sharded-api:BEGIN\n"
        + "\"all\" = []\n"
        + "# PLACEHOLDER:FEATURES:sharded-api:END\n"
        + "# PLACEHOLDER:FEATURES:docs.rs:BEGIN\n"
        + "features = [\"all\", \"force-define\"]\n"
        + "# PLACEHOLDER:FEATURES:docs.rs:END\n"
        + "# PLACEHOLDER:other\n";
    assert_eq!(r.text, expected);
}

#[test]
fn sys_gen_expands_every_placeholder() {
    let r = android_sys_gen::generate_toml(
        &full_template(),
        ApiLevelRange { start: 27, end: 28 },
        &features(),
    );
    let expected = String::from(HEADER)
        + "[package]\n"
        + "# PLACEHOLDER:FEATURES:api-level-NN:BEGIN\n"
        + "api-level-27 = []\n"
        + "api-level-28 = [\"api-level-27\"]\n"
        + "# PLACEHOLDER:FEATURES:api-level-NN:END\n"
        + "# PLACEHOLDER:FEATURES:sharded-api:BEGIN\n"
        + "\"a\" = []\n"
        + "\"b\" = [\"a\", \"c\"]\n"
        + "# PLACEHOLDER:FEATURES:sharded-api:END\n"
        + "# PLACEHOLDER:FEATURES:docs.rs:BEGIN\n"
        + "features = [\"api-level-28\", \"force-define\"]\n"
        + "# PLACEHOLDER:FEATURES:docs.rs:END\n"
        + "# PLACEHOLDER:other\n";
    assert_eq!(r.text, expected);
    assert_eq!(r.unexpected_placeholders, vec!["# PLACEHOLDER:other".to_string()]);
}

#[test]
fn empty_template_gives_the_header_only() {
    let r = bindgen::generate_toml(&vec![], None, &features());
    assert_eq!(r.text, HEADER);
    assert!(r.unexpected_placeholders.is_empty());
    let r = android_sys_gen::generate_toml(&vec![], ApiLevelRange { start: 7, end: 7 }, &vec![]);
    assert_eq!(r.text, HEADER);
}

#[test]
fn plain_template_is_copied() {
    let template = lines(&["[package]\r\n", "name = \"x\"\n", "", "# comment"]);
    let expected = String::from(HEADER) + "[package]\nname = \"x\"\n\n# comment\n";
    let r = bindgen::generate_toml(&template, Some(ApiLevelRange { start: 7, end: 8 }), &features());
    assert_eq!(r.text, expected);
    let r = android_sys_gen::generate_toml(&template, ApiLevelRange { start: 7, end: 8 }, &features());
    assert_eq!(r.text, expected);
}

#[test]
fn generated_toml_carries_the_marker() {
    let r = bindgen::generate_toml(&full_template(), None, &features());
    let first = r.text.lines().next().unwrap();
    assert!(first_line_has_marker(first));
    let r = android_sys_gen::generate_toml(&full_template(), ApiLevelRange { start: 7, end: 7 }, &features());
    let first = r.text.lines().next().unwrap();
    assert!(first_line_has_marker(first));
}

#[test]
fn repeated_placeholders_are_each_expanded() {
    let template = lines(&["# PLACEHOLDER:FEATURES:docs.rs", "# PLACEHOLDER:FEATURES:docs.rs\r"]);
    let r = android_sys_gen::generate_toml(&template, ApiLevelRange { start: 7, end: 8 }, &vec![]);
    let block = "# PLACEHOLDER:FEATURES:docs.rs:BEGIN\nfeatures = [\"api-level-8\", \"force-define\"]\n# PLACEHOLDER:FEATURES:docs.rs:END\n";
    assert_eq!(r.text, String::from(HEADER) + block + block);
}

#[test]
fn line_by_line_expansion_matches_whole_template() {
    let template = full_template();
    let levels = Some(ApiLevelRange { start: 7, end: 9 });
    let sharded = sharded_features(&features());
    let mut text = toml_header_text();
    let mut warnings = Vec::new();
    for line in template.iter() {
        let r = bindgen::expand_line(line, levels, &sharded);
        text.push_str(&r.text);
        warnings.extend(r.unexpected_placeholders);
    }
    let whole = bindgen::generate_toml(&template, levels, &features());
    assert_eq!(text, whole.text);
    assert_eq!(warnings, whole.unexpected_placeholders);

    let levels = ApiLevelRange { start: 7, end: 9 };
    let mut text = toml_header_text();
    for line in template.iter() {
        text.push_str(&android_sys_gen::expand_line(line, levels, &sharded).text);
    }
    assert_eq!(text, android_sys_gen::generate_toml(&template, levels, &features()).text);
}

#[test]
fn expand_line_reports_unexpected_placeholders() {
    let r = bindgen::expand_line("# PLACEHOLDER:nope\r\n", None, "");
    assert_eq!(r.text, "# PLACEHOLDER:nope\n");
    assert_eq!(r.unexpected_placeholders, vec!["# PLACEHOLDER:nope".to_string()]);
    let r = android_sys_gen::expand_line("plain", ApiLevelRange { start: 1, end: 1 }, "");
    assert_eq!(r.text, "plain\n");
    assert!(r.unexpected_placeholders.is_empty());
}

#[test]
fn header_text() {
    assert_eq!(toml_header_text(), HEADER);
}
