use jni_bindgen::cli::{
    api_level_output_path, parse_api_level, sdk_android_jar, subcommand,
    untested_api_level_warning, Subcommand,
};
use jni_bindgen::text::push_decimal;

#[test]
fn subcommand_defaults_to_generate() {
    assert!(matches!(subcommand(None), Subcommand::Generate));
    assert!(matches!(subcommand(Some("generate")), Subcommand::Generate));
    assert!(matches!(subcommand(Some("verify")), Subcommand::Verify));
    match subcommand(Some("frobnicate")) {
        Subcommand::Unknown(name) => assert_eq!(name, "frobnicate"),
        _ => panic!("unexpected subcommand"),
    }
}

#[test]
fn warns_below_api_level_seven() {
    assert_eq!(
        untested_api_level_warning(6).unwrap(),
        "WARNING:  Untested api level 6 (<7).\nIf you've found where I can grab such an early version of the Android SDK/APIs,\nplease comment on / reopen https://github.com/MaulingMonkey/jni-bindgen/issues/10 !"
    );
    assert!(untested_api_level_warning(7).is_none());
    assert!(untested_api_level_warning(28).is_none());
    assert!(untested_api_level_warning(-1).unwrap().starts_with("WARNING:  Untested api level -1 (<7)."));
}

#[test]
fn sdk_jar_paths() {
    assert_eq!(
        sdk_android_jar(28, true, false),
        "%ANDROID_HOME%/platforms/android-28/android.jar"
    );
    assert_eq!(
        sdk_android_jar(28, true, true),
        "%ANDROID_HOME%/platforms/android-28/android.jar"
    );
    assert_eq!(
        sdk_android_jar(8, false, true),
        "%LOCALAPPDATA%/Android/Sdk/platforms/android-8/android.jar"
    );
}

#[test]
fn output_path_per_level() {
    assert_eq!(api_level_output_path(28), "src/generated/api-level-28.rs");
}

#[test]
fn parses_api_levels_like_std() {
    for s in ["28", "7", "+7", "-3", "007", "", "-", "+", "2147483647", "2147483648",
        "-2147483648", "-2147483649", "7a", " 7", "99999999999999999999", "1_0"] {
        assert_eq!(parse_api_level(s), s.parse::<i32>().ok(), "{:?}", s);
    }
}

#[test]
fn parses_back_what_decimal_writes() {
    for n in [0, 1, 7, 28, -5, i32::MAX, i32::MIN] {
        let mut s = String::new();
        push_decimal(&mut s, n);
        assert_eq!(parse_api_level(&s), Some(n));
    }
}
