//! The pieces of a generated `Cargo.toml` that both generators share: the header, the
//! per-API-level features, the sharded feature list and the placeholder lines.

use vstd::prelude::*;
use crate::text::{decimal, debug_quoted, debug_str, push_decimal, starts_with, str_eq, strip_eol};

verus! {

/// An inclusive range of Android API levels: `start..=end`.
#[derive(Clone, Copy)]
pub struct ApiLevelRange {
    pub start: i32,
    pub end: i32,
}

/// A feature of the generated crate and the features it depends on, in the order in
/// which they are written.
pub struct FeatureDependencies {
    pub name: String,
    pub dependencies: Vec<String>,
}

/// The output of a template expansion: the text of `Cargo.toml`, and the lines that look
/// like placeholders but name none that is known, in template order.
pub struct TomlOutput {
    pub text: String,
    pub unexpected_placeholders: Vec<String>,
}

pub const API_LEVEL_PLACEHOLDER: &'static str = "# PLACEHOLDER:FEATURES:api-level-NN";

pub const SHARDED_API_PLACEHOLDER: &'static str = "# PLACEHOLDER:FEATURES:sharded-api";

pub const DOCS_RS_PLACEHOLDER: &'static str = "# PLACEHOLDER:FEATURES:docs.rs";

pub const PLACEHOLDER_PREFIX: &'static str = "# PLACEHOLDER:";

pub const TOML_WARNING_LINE: &'static str = "# WARNING:  This file was autogenerated by jni-bindgen.  Any changes to this file may be lost!!!";

/// The first two lines of every generated `Cargo.toml`: the warning and an empty line.
pub open spec fn toml_header() -> Seq<char> {
    TOML_WARNING_LINE@ + "\n"@ + "\n"@
}

/// The first two lines of a generated `Cargo.toml`.
pub fn toml_header_text() -> (r: String)
    ensures
        r@ == toml_header(),
{
    let mut out = String::new();
    out.append(TOML_WARNING_LINE);
    out.append("\n");
    out.append("\n");
    out
}

/// The feature line of API level `level` in a range that starts at `start`: each level
/// but the first depends on the one below it.
pub open spec fn api_level_feature_line(level: int, start: int) -> Seq<char> {
    "api-level-"@ + decimal(level) + " = ["@ + (if level > start {
        "\"api-level-"@ + decimal(level - 1) + "\""@
    } else {
        Seq::<char>::empty()
    }) + "]\n"@
}

/// The feature lines of the levels `from..=end` of a range that starts at `start`.
pub open spec fn api_level_feature_lines(start: int, from: int, end: int) -> Seq<char>
    decreases end + 1 - from,
{
    if from > end {
        Seq::<char>::empty()
    } else {
        api_level_feature_line(from, start) + api_level_feature_lines(start, from + 1, end)
    }
}

/// The feature lines of all the levels of `levels`.
pub open spec fn api_level_features(levels: ApiLevelRange) -> Seq<char> {
    api_level_feature_lines(levels.start as int, levels.start as int, levels.end as int)
}

/// Items joined by `", "`.
pub open spec fn comma_list(items: Seq<Seq<char>>) -> Seq<char>
    decreases items.len(),
{
    if items.len() == 0 {
        Seq::<char>::empty()
    } else if items.len() == 1 {
        items[0]
    } else {
        comma_list(items.drop_last()) + ", "@ + items.last()
    }
}

/// A feature line built from already quoted names: `name = [dep, dep]`.
pub open spec fn feature_line_text(quoted_name: Seq<char>, quoted_dependencies: Seq<Seq<char>>) -> Seq<char> {
    quoted_name + " = ["@ + comma_list(quoted_dependencies) + "]\n"@
}

/// The texts of some strings.
pub open spec fn texts(v: Seq<String>) -> Seq<Seq<char>> {
    v.map_values(|s: String| s@)
}

/// Each text as `{:?}` writes it.
pub open spec fn quoted_texts(v: Seq<String>) -> Seq<Seq<char>> {
    v.map_values(|s: String| debug_quoted(s@))
}

/// The feature line of one feature, names written with `{:?}`.
pub open spec fn sharded_feature_line(f: FeatureDependencies) -> Seq<char> {
    feature_line_text(debug_quoted(f.name@), quoted_texts(f.dependencies@))
}

/// The feature lines of all the features, in order.
pub open spec fn sharded_feature_lines(features: Seq<FeatureDependencies>) -> Seq<char>
    decreases features.len(),
{
    if features.len() == 0 {
        Seq::<char>::empty()
    } else {
        sharded_feature_lines(features.drop_last()) + sharded_feature_line(features.last())
    }
}

/// One of the three placeholder lines that the generators fill in.
pub open spec fn is_known_placeholder(t: Seq<char>) -> bool {
    t == API_LEVEL_PLACEHOLDER@ || t == SHARDED_API_PLACEHOLDER@ || t == DOCS_RS_PLACEHOLDER@
}

/// The lines without their line endings, each ended by a single line feed.
pub open spec fn plain_lines(lines: Seq<Seq<char>>) -> Seq<char>
    decreases lines.len(),
{
    if lines.len() == 0 {
        Seq::<char>::empty()
    } else {
        plain_lines(lines.drop_last()) + strip_eol(lines.last()) + "\n"@
    }
}

/// A template line that starts like a placeholder but is none of the known ones.
pub open spec fn is_unexpected_placeholder(t: Seq<char>) -> bool {
    &&& t != API_LEVEL_PLACEHOLDER@
    &&& t != SHARDED_API_PLACEHOLDER@
    &&& t != DOCS_RS_PLACEHOLDER@
    &&& PLACEHOLDER_PREFIX@.is_prefix_of(t)
}

/// The template lines, without their line endings, that are unexpected placeholders.
pub open spec fn unexpected_placeholders(lines: Seq<Seq<char>>) -> Seq<Seq<char>>
    decreases lines.len(),
{
    if lines.len() == 0 {
        Seq::<Seq<char>>::empty()
    } else if is_unexpected_placeholder(strip_eol(lines.last())) {
        unexpected_placeholders(lines.drop_last()).push(strip_eol(lines.last()))
    } else {
        unexpected_placeholders(lines.drop_last())
    }
}

/// Appends the feature lines of every level of `levels`.
pub fn push_api_level_features(out: &mut String, levels: ApiLevelRange)
    ensures
        final(out)@ == old(out)@ + api_level_features(levels),
{
    let start = levels.start;
    let end = levels.end;
    let mut level: i64 = start as i64;
    while level <= end as i64
        invariant
            start == levels.start,
            end == levels.end,
            start <= level <= end as int + 1 || level == start,
            old(out)@ + api_level_features(levels) == out@ + api_level_feature_lines(
                start as int,
                level as int,
                end as int,
            ),
        decreases end as int + 1 - level,
    {
        let ghost before = out@;
        let ghost rest = api_level_feature_lines(start as int, level + 1, end as int);
        let lv = level as i32;
        out.append("api-level-");
        push_decimal(out, lv);
        out.append(" = [");
        if level > start as i64 {
            out.append("\"api-level-");
            push_decimal(out, lv - 1);
            out.append("\"");
        }
        out.append("]\n");
        assert(out@ =~= before + api_level_feature_line(level as int, start as int));
        assert(before + (api_level_feature_line(level as int, start as int) + rest) =~= out@
            + rest);
        level = level + 1;
    }
    assert(out@ + Seq::<char>::empty() =~= out@);
}

/// The feature line of one feature, from its name and its dependencies as `{:?}` wrote
/// them: `name = [dep, dep]` and a line feed.
pub fn feature_line(quoted_name: &str, quoted_dependencies: &Vec<String>) -> (r: String)
    ensures
        r@ == feature_line_text(quoted_name@, texts(quoted_dependencies@)),
{
    let mut out = String::new();
    out.append(quoted_name);
    out.append(" = [");
    let ghost start = out@;
    let n = quoted_dependencies.len();
    for idx in 0..n
        invariant
            n == quoted_dependencies@.len(),
            out@ == start + comma_list(texts(quoted_dependencies@).take(idx as int)),
    {
        let ghost items = texts(quoted_dependencies@).take(idx + 1);
        assert(items.drop_last() =~= texts(quoted_dependencies@).take(idx as int));
        if idx != 0 {
            out.append(", ");
        }
        out.append(quoted_dependencies[idx].as_str());
        assert(out@ =~= start + comma_list(items)) by {
            if idx == 0 {
                assert(comma_list(items) == items[0]);
            }
        }
    }
    assert(texts(quoted_dependencies@).take(n as int) =~= texts(quoted_dependencies@));
    out.append("]\n");
    out
}

/// The quoted form of every string of `v`.
fn debug_all(v: &Vec<String>) -> (r: Vec<String>)
    ensures
        texts(r@) == quoted_texts(v@),
{
    let mut r: Vec<String> = Vec::new();
    let n = v.len();
    for i in 0..n
        invariant
            n == v@.len(),
            r@.len() == i,
            texts(r@) == quoted_texts(v@).take(i as int),
    {
        let q = debug_str(v[i].as_str());
        r.push(q);
        assert(texts(r@) =~= quoted_texts(v@).take(i + 1));
    }
    assert(quoted_texts(v@).take(n as int) =~= quoted_texts(v@));
    r
}

/// The feature lines of all the features, names and dependencies written with `{:?}`.
pub fn sharded_features(features: &Vec<FeatureDependencies>) -> (r: String)
    ensures
        r@ == sharded_feature_lines(features@),
{
    let mut out = String::new();
    let n = features.len();
    for i in 0..n
        invariant
            n == features@.len(),
            out@ == sharded_feature_lines(features@.take(i as int)),
    {
        let f = &features[i];
        let name = debug_str(f.name.as_str());
        let deps = debug_all(&f.dependencies);
        let line = feature_line(name.as_str(), &deps);
        out.append(line.as_str());
        assert(features@.take(i + 1).drop_last() =~= features@.take(i as int));
    }
    assert(features@.take(n as int) =~= features@);
    out
}

/// Whether a template line, without its line ending, is an unexpected placeholder.
pub fn unexpected_placeholder(t: &str) -> (r: bool)
    ensures
        r == is_unexpected_placeholder(t@),
{
    !str_eq(t, API_LEVEL_PLACEHOLDER) && !str_eq(t, SHARDED_API_PLACEHOLDER) && !str_eq(
        t,
        DOCS_RS_PLACEHOLDER,
    ) && starts_with(t, PLACEHOLDER_PREFIX)
}

/// A list of one item is that item; each further item is added after `", "`: for every
/// non-empty list of items and every item `x`, the list with `x` appended is the list,
/// then `", "`, then `x`.
pub proof fn lemma_comma_list_push(items: Seq<Seq<char>>, x: Seq<char>)
    ensures
        comma_list(Seq::<Seq<char>>::empty()) == Seq::<char>::empty(),
        comma_list(seq![x]) == x,
        items.len() > 0 ==> comma_list(items.push(x)) == comma_list(items) + ", "@ + x,
{
    assert(items.push(x).drop_last() =~= items);
    assert(items.push(x).last() == x);
}

/// Where the feature line of `level` stands in the lines of `from..=end`: at an index that
/// starts the lines or follows a line feed.
pub proof fn lemma_api_level_line_position(start: int, from: int, end: int, level: int) -> (i: int)
    requires
        from <= level <= end,
    ensures
        0 <= i,
        i + api_level_feature_line(level, start).len() <= api_level_feature_lines(start, from, end).len(),
        api_level_feature_lines(start, from, end).subrange(i, i + api_level_feature_line(level, start).len())
            == api_level_feature_line(level, start),
        i == 0 || api_level_feature_lines(start, from, end)[i - 1] == '\n',
    decreases end + 1 - from,
{
    let first = api_level_feature_line(from, start);
    let rest = api_level_feature_lines(start, from + 1, end);
    let all = api_level_feature_lines(start, from, end);
    assert(all == first + rest);
    if level == from {
        assert(all.subrange(0, first.len() as int) =~= first);
        0
    } else {
        let j = lemma_api_level_line_position(start, from + 1, end, level);
        let line = api_level_feature_line(level, start);
        assert(all.subrange(first.len() + j, first.len() + j + line.len()) =~= rest.subrange(j, j + line.len()));
        if j == 0 {
            reveal_strlit("]\n");
            assert(first[first.len() - 1] == '\n');
        } else {
            assert(all[first.len() + j - 1] == rest[j - 1]);
        }
        first.len() + j
    }
}

} // verus!
