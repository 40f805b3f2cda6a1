//! Decisions of the generators' command lines: which subcommand runs, which API levels
//! were asked for, where the Android SDK jar of a level lies, and what is warned about.

use vstd::prelude::*;
use crate::text::{chars_of, decimal, decimal_digits, digit_char, push_decimal, str_eq};

verus! {

/// The subcommand a generator was asked to run.
pub enum Subcommand {
    Generate,
    Verify,
    Unknown(String),
}

/// The subcommand named on the command line; `generate` when none is named.
pub fn subcommand(name: Option<&str>) -> (r: Subcommand)
    ensures
        match name {
            None => r is Generate,
            Some(n) => if n@ == "generate"@ {
                r is Generate
            } else if n@ == "verify"@ {
                r is Verify
            } else {
                r matches Subcommand::Unknown(u) && u@ == n@
            },
        },
{
    match name {
        None => Subcommand::Generate,
        Some(n) => {
            if str_eq(n, "generate") {
                Subcommand::Generate
            } else if str_eq(n, "verify") {
                Subcommand::Verify
            } else {
                Subcommand::Unknown(n.to_string())
            }
        },
    }
}

/// The lowest API level the generators have been tried with.
pub const LOWEST_TESTED_API_LEVEL: i32 = 7;

/// The warning printed for a range of API levels that starts at `start`, below 7.
pub open spec fn untested_api_level_message(start: int) -> Seq<char> {
    "WARNING:  Untested api level "@ + decimal(start) + " (<7).\n"@
        + "If you've found where I can grab such an early version of the Android SDK/APIs,\n"@
        + "please comment on / reopen https://github.com/MaulingMonkey/jni-bindgen/issues/10 !"@
}

/// The warning owed when the lowest API level asked for is below 7; `None` otherwise.
pub fn untested_api_level_warning(start: i32) -> (r: Option<String>)
    ensures
        start < 7 ==> (r matches Some(m) && m@ == untested_api_level_message(start as int)),
        start >= 7 ==> r is None,
{
    if start < LOWEST_TESTED_API_LEVEL {
        let mut m = String::new();
        m.append("WARNING:  Untested api level ");
        push_decimal(&mut m, start);
        m.append(" (<7).\n");
        m.append("If you've found where I can grab such an early version of the Android SDK/APIs,\n");
        m.append("please comment on / reopen https://github.com/MaulingMonkey/jni-bindgen/issues/10 !");
        Some(m)
    } else {
        None
    }
}

/// Where the `android.jar` of an API level lies: under `%ANDROID_HOME%` when that variable
/// is set, else under `%LOCALAPPDATA%` on Windows.
pub open spec fn sdk_android_jar_path(api_level: int, android_home_set: bool, windows: bool) -> Option<Seq<char>> {
    if android_home_set {
        Some("%ANDROID_HOME%/platforms/android-"@ + decimal(api_level) + "/android.jar"@)
    } else if windows {
        Some("%LOCALAPPDATA%/Android/Sdk/platforms/android-"@ + decimal(api_level) + "/android.jar"@)
    } else {
        None
    }
}

/// The path of the `android.jar` of `api_level`. No path can be inferred when
/// `ANDROID_HOME` is not set and the platform is not Windows; the generator stops there,
/// so callers check that first.
pub fn sdk_android_jar(api_level: i32, android_home_set: bool, windows: bool) -> (r: String)
    requires
        android_home_set || windows,
    ensures
        sdk_android_jar_path(api_level as int, android_home_set, windows) == Some(r@),
{
    let mut p = String::new();
    if android_home_set {
        p.append("%ANDROID_HOME%/platforms/android-");
    } else {
        p.append("%LOCALAPPDATA%/Android/Sdk/platforms/android-");
    }
    push_decimal(&mut p, api_level);
    p.append("/android.jar");
    p
}

/// The output file of the bindings of one API level: `src/generated/api-level-NN.rs`.
pub fn api_level_output_path(api_level: i32) -> (r: String)
    ensures
        r@ == "src/generated/api-level-"@ + decimal(api_level as int) + ".rs"@,
{
    let mut p = String::new();
    p.append("src/generated/api-level-");
    push_decimal(&mut p, api_level);
    p.append(".rs");
    p
}

pub open spec fn is_digit(c: char) -> bool {
    '0' <= c <= '9'
}

/// The value of a string of decimal digits.
pub open spec fn digits_value(ds: Seq<char>) -> int
    decreases ds.len(),
{
    if ds.len() == 0 {
        0
    } else {
        digits_value(ds.drop_last()) * 10 + (ds.last() as int - 48)
    }
}

/// The length of the sign that may begin a number: 1 for `+` or `-`, else 0.
pub open spec fn sign_len(s: Seq<char>) -> int {
    if s.len() > 0 && (s[0] == '-' || s[0] == '+') {
        1
    } else {
        0
    }
}

/// How `str::parse::<i32>` reads a text: an optional `+` or `-`, then one or more decimal
/// digits, with a value that fits in `i32`; `None` for anything else.
pub open spec fn parsed_i32(s: Seq<char>) -> Option<i32> {
    let neg = s.len() > 0 && s[0] == '-';
    let ds = s.skip(sign_len(s));
    let v = if neg {
        -digits_value(ds)
    } else {
        digits_value(ds)
    };
    if ds.len() > 0 && (forall|i: int| 0 <= i < ds.len() ==> is_digit(#[trigger] ds[i])) && i32::MIN
        <= v <= i32::MAX {
        Some(v as i32)
    } else {
        None
    }
}

proof fn lemma_digits_value_grows(ds: Seq<char>, k: int)
    requires
        0 <= k <= ds.len(),
        forall|i: int| 0 <= i < ds.len() ==> is_digit(#[trigger] ds[i]),
    ensures
        digits_value(ds) >= digits_value(ds.take(k)),
        digits_value(ds) >= 0,
    decreases ds.len(),
{
    if ds.len() > 0 {
        if k == ds.len() {
            assert(ds.take(k) =~= ds);
        }
        let d = ds.drop_last();
        assert forall|i: int| 0 <= i < d.len() implies is_digit(#[trigger] d[i]) by {
            assert(d[i] == ds[i]);
        }
        if k < ds.len() {
            lemma_digits_value_grows(d, k);
            assert(d.take(k) =~= ds.take(k));
        } else {
            lemma_digits_value_grows(d, 0);
        }
        assert(is_digit(ds.last()));
    }
}

/// Reads an API level as `str::parse::<i32>` does; `None` when `s` is not one.
pub fn parse_api_level(s: &str) -> (r: Option<i32>)
    ensures
        r == parsed_i32(s@),
{
    let cs = chars_of(s);
    let n = cs.len();
    let neg = n > 0 && cs[0] == '-';
    let start: usize = if n > 0 && (cs[0] == '-' || cs[0] == '+') {
        1
    } else {
        0
    };
    let ghost ds = s@.skip(start as int);
    assert(start == sign_len(s@));
    if start == n {
        return None;
    }
    let mut acc: i64 = 0;
    let mut i: usize = start;
    while i < n
        invariant
            start <= i <= n,
            start == sign_len(s@),
            neg == (s@.len() > 0 && s@[0] == '-'),
            n == cs@.len(),
            cs@ == s@,
            ds == s@.skip(start as int),
            forall|j: int| 0 <= j < i - start ==> is_digit(#[trigger] ds[j]),
            acc == digits_value(ds.take(i - start)),
            0 <= acc <= 2147483648,
        decreases n - i,
    {
        let c = cs[i];
        assert(c == ds[i - start]);
        if c < '0' || c > '9' {
            assert(!is_digit(ds[i - start]));
            return None;
        }
        let d: i64 = (c as u32 - 48) as i64;
        assert(ds.take(i + 1 - start).drop_last() =~= ds.take(i - start));
        acc = acc * 10 + d;
        i = i + 1;
        if acc > 2147483648 {
            proof {
                assert forall|j: int| 0 <= j < i - start implies is_digit(#[trigger] ds[j]) by {}
                if forall|j: int| 0 <= j < ds.len() ==> is_digit(#[trigger] ds[j]) {
                    lemma_digits_value_grows(ds, i - start);
                }
            }
            return None;
        }
    }
    assert(ds.take(n - start) =~= ds);
    if neg {
        Some((-acc) as i32)
    } else if acc <= 2147483647 {
        Some(acc as i32)
    } else {
        None
    }
}

proof fn lemma_decimal_digits(m: nat)
    ensures
        decimal_digits(m).len() > 0,
        forall|i: int| 0 <= i < decimal_digits(m).len() ==> is_digit(#[trigger] decimal_digits(m)[i]),
        digits_value(decimal_digits(m)) == m,
    decreases m,
{
    if m >= 10 {
        lemma_decimal_digits(m / 10);
        let d = decimal_digits(m);
        assert(d.drop_last() =~= decimal_digits(m / 10));
        assert(digit_char((m % 10) as int) as int == 48 + m % 10);
        assert(d.last() == digit_char((m % 10) as int));
        assert(digits_value(d) == digits_value(d.drop_last()) * 10 + (d.last() as int - 48));
        assert(m == (m / 10) * 10 + m % 10);
        assert forall|i: int| 0 <= i < d.len() implies is_digit(#[trigger] d[i]) by {
            if i < d.len() - 1 {
                assert(d[i] == decimal_digits(m / 10)[i]);
            }
        }
    } else {
        assert(decimal_digits(m).drop_last() =~= Seq::<char>::empty());
        assert(digit_char(m as int) as int == 48 + m);
        let d = decimal_digits(m);
        assert(d == seq![digit_char(m as int)]);
        assert(digits_value(d) == digits_value(d.drop_last()) * 10 + (d.last() as int - 48));
        assert(digits_value(d.drop_last()) == 0);
    }
}

/// An API level written with `{}` reads back as the same level: for every `i32` value `n`,
/// parsing its decimal rendering gives `n`.
pub proof fn lemma_parse_api_level_reads_decimal(n: i32)
    ensures
        parsed_i32(decimal(n as int)) == Some(n),
{
    let s = decimal(n as int);
    if n < 0 {
        let m = (-(n as int)) as nat;
        lemma_decimal_digits(m);
        assert(s.skip(1) =~= decimal_digits(m));
    } else {
        lemma_decimal_digits(n as nat);
        let d = decimal_digits(n as nat);
        assert(is_digit(d[0]));
        assert(d.skip(0) =~= d);
    }
}

} // verus!
