//! `Cargo.toml` generation of the Android system bindings generator: the API levels are
//! a required range, and no `"all"` feature is added.

use vstd::prelude::*;
use crate::cargo_toml::{
    api_level_features, push_api_level_features, sharded_feature_lines, sharded_features,
    texts, toml_header, unexpected_placeholder, unexpected_placeholders, ApiLevelRange,
    FeatureDependencies, TomlOutput, is_known_placeholder, api_level_feature_line,
    lemma_api_level_line_position, plain_lines, API_LEVEL_PLACEHOLDER, DOCS_RS_PLACEHOLDER,
    SHARDED_API_PLACEHOLDER, toml_header_text,
};
use crate::text::{decimal, push_decimal, str_eq, strip_eol, trim_line_end};

verus! {

/// What one template line, without its line ending, becomes.
pub open spec fn sys_gen_line(t: Seq<char>, levels: ApiLevelRange, sharded: Seq<char>) -> Seq<char> {
    if t == API_LEVEL_PLACEHOLDER@ {
        t + ":BEGIN\n"@ + api_level_features(levels) + t + ":END\n"@
    } else if t == SHARDED_API_PLACEHOLDER@ {
        t + ":BEGIN\n"@ + sharded + t + ":END\n"@
    } else if t == DOCS_RS_PLACEHOLDER@ {
        t + ":BEGIN\n"@ + "features = [\"api-level-"@ + decimal(levels.end as int)
            + "\", \"force-define\"]\n"@ + t + ":END\n"@
    } else {
        t + "\n"@
    }
}

/// What the template lines become, one after the other.
pub open spec fn sys_gen_lines(lines: Seq<Seq<char>>, levels: ApiLevelRange, sharded: Seq<char>) -> Seq<char>
    decreases lines.len(),
{
    if lines.len() == 0 {
        Seq::<char>::empty()
    } else {
        sys_gen_lines(lines.drop_last(), levels, sharded) + sys_gen_line(
            strip_eol(lines.last()),
            levels,
            sharded,
        )
    }
}

/// The whole generated `Cargo.toml`.
pub open spec fn sys_gen_toml(
    lines: Seq<Seq<char>>,
    levels: ApiLevelRange,
    features: Seq<FeatureDependencies>,
) -> Seq<char> {
    toml_header() + sys_gen_lines(lines, levels, sharded_feature_lines(features))
}

fn push_sys_gen_line(out: &mut String, t: &str, levels: ApiLevelRange, sharded: &str)
    ensures
        final(out)@ == old(out)@ + sys_gen_line(t@, levels, sharded@),
{
    let ghost before = out@;
    if str_eq(t, API_LEVEL_PLACEHOLDER) {
        out.append(t);
        out.append(":BEGIN\n");
        push_api_level_features(out, levels);
        out.append(t);
        out.append(":END\n");
    } else if str_eq(t, SHARDED_API_PLACEHOLDER) {
        out.append(t);
        out.append(":BEGIN\n");
        out.append(sharded);
        out.append(t);
        out.append(":END\n");
    } else if str_eq(t, DOCS_RS_PLACEHOLDER) {
        out.append(t);
        out.append(":BEGIN\n");
        out.append("features = [\"api-level-");
        push_decimal(out, levels.end);
        out.append("\", \"force-define\"]\n");
        out.append(t);
        out.append(":END\n");
    } else {
        out.append(t);
        out.append("\n");
    }
    assert(out@ =~= before + sys_gen_line(t@, levels, sharded@));
}

/// Expands one template line, as it was read (with or without its line ending), given
/// the feature lines that `sharded_features` wrote: what the line becomes, and the line
/// without its ending when it is an unexpected placeholder. Expanding the lines one by
/// one after `toml_header_text` gives what `generate_toml` gives.
pub fn expand_line(line: &str, api_levels: ApiLevelRange, sharded: &str) -> (r: TomlOutput)
    ensures
        r.text@ == sys_gen_line(strip_eol(line@), api_levels, sharded@),
        texts(r.unexpected_placeholders@) == unexpected_placeholders(seq![line@]),
{
    let t = trim_line_end(line);
    let mut out = String::new();
    push_sys_gen_line(&mut out, t.as_str(), api_levels, sharded);
    assert(Seq::<char>::empty() + sys_gen_line(t@, api_levels, sharded@) =~= sys_gen_line(t@, api_levels, sharded@));
    let mut warnings: Vec<String> = Vec::new();
    proof {
        assert(seq![line@].drop_last() =~= Seq::<Seq<char>>::empty());
        assert(seq![line@].last() == line@);
        assert(unexpected_placeholders(seq![line@].drop_last()) =~= Seq::<Seq<char>>::empty());
    }
    if unexpected_placeholder(t.as_str()) {
        warnings.push(t);
        assert(texts(warnings@) =~= Seq::<Seq<char>>::empty().push(strip_eol(line@)));
    } else {
        assert(texts(warnings@) =~= Seq::<Seq<char>>::empty());
    }
    TomlOutput { text: out, unexpected_placeholders: warnings }
}

/// Expands a `Cargo.toml` template, given as its lines, for the API levels `api_levels`:
/// the warning header first; then each line with its trailing `'\r'`/`'\n'` removed, the
/// three known placeholders (API levels, sharded API, docs.rs) replaced by their feature
/// lists, every other line as it is. Lines that start with `# PLACEHOLDER:` but name no known placeholder are
/// copied too, and also listed, so that the caller can warn about them.
pub fn generate_toml(
    template: &Vec<String>,
    api_levels: ApiLevelRange,
    features: &Vec<FeatureDependencies>,
) -> (r: TomlOutput)
    ensures
        r.text@ == sys_gen_toml(texts(template@), api_levels, features@),
        texts(r.unexpected_placeholders@) == unexpected_placeholders(texts(template@)),
{
    let sharded = sharded_features(features);
    let mut out = toml_header_text();
    let ghost head = out@;
    let mut warnings: Vec<String> = Vec::new();
    let n = template.len();
    for i in 0..n
        invariant
            n == template@.len(),
            sharded@ == sharded_feature_lines(features@),
            head == toml_header(),
            out@ == head + sys_gen_lines(texts(template@).take(i as int), api_levels, sharded@),
            warnings@.len() <= i,
            texts(warnings@) == unexpected_placeholders(texts(template@).take(i as int)),
    {
        let t = trim_line_end(template[i].as_str());
        let ghost lines = texts(template@).take(i + 1);
        assert(lines.drop_last() =~= texts(template@).take(i as int));
        assert(lines.last() == template@[i as int]@);
        push_sys_gen_line(&mut out, t.as_str(), api_levels, sharded.as_str());
        assert(out@ =~= head + sys_gen_lines(lines, api_levels, sharded@));
        let ghost w = warnings@;
        if unexpected_placeholder(t.as_str()) {
            warnings.push(t);
            assert(texts(warnings@) =~= texts(w).push(strip_eol(lines.last())));
        }
    }
    assert(texts(template@).take(n as int) =~= texts(template@));
    TomlOutput { text: out, unexpected_placeholders: warnings }
}

/// A template without placeholder lines comes out as it went in, each line ended by a
/// single line feed.
pub proof fn lemma_sys_gen_copies_plain_template(lines: Seq<Seq<char>>, levels: ApiLevelRange, sharded: Seq<char>)
    requires
        forall|i: int| 0 <= i < lines.len() ==> !is_known_placeholder(strip_eol(#[trigger] lines[i])),
    ensures
        sys_gen_lines(lines, levels, sharded) == plain_lines(lines),
    decreases lines.len(),
{
    if lines.len() > 0 {
        let d = lines.drop_last();
        assert forall|i: int| 0 <= i < d.len() implies !is_known_placeholder(strip_eol(#[trigger] d[i])) by {
            assert(d[i] == lines[i]);
        }
        lemma_sys_gen_copies_plain_template(d, levels, sharded);
        assert(!is_known_placeholder(strip_eol(lines[lines.len() - 1])));
        assert(sys_gen_lines(lines, levels, sharded) =~= plain_lines(lines));
    }
}

/// Every API level of a non-empty range gets its feature: over the API levels `r`, the api-level
/// placeholder becomes a block that opens with its `:BEGIN` line, closes with its `:END`
/// line, and defines on a line of its own the feature `api-level-L` of every level `L`
/// from `r.start` to `r.end`, each level but the first depending on the one below it;
/// the result is where the line of `level` starts.
pub proof fn lemma_sys_gen_defines_every_api_level(r: ApiLevelRange, sharded: Seq<char>, level: int) -> (i: int)
    requires
        r.start <= level <= r.end,
    ensures
        ({
            let out = sys_gen_line(API_LEVEL_PLACEHOLDER@, r, sharded);
            let line = "api-level-"@ + decimal(level) + " = ["@ + (if level > r.start {
                "\"api-level-"@ + decimal(level - 1) + "\""@
            } else {
                Seq::<char>::empty()
            }) + "]\n"@;
            &&& (API_LEVEL_PLACEHOLDER@ + ":BEGIN\n"@).is_prefix_of(out)
            &&& (API_LEVEL_PLACEHOLDER@ + ":END\n"@).is_suffix_of(out)
            &&& 0 < i && i + line.len() <= out.len()
            &&& out[i - 1] == '\n'
            &&& out.subrange(i, i + line.len()) == line
        }),
{
    let out = sys_gen_line(API_LEVEL_PLACEHOLDER@, r, sharded);
    let begin = API_LEVEL_PLACEHOLDER@ + ":BEGIN\n"@;
    let finish = API_LEVEL_PLACEHOLDER@ + ":END\n"@;
    let lines = api_level_features(r);
    let line = api_level_feature_line(level, r.start as int);
    assert(out =~= begin + lines + finish);
    let j = lemma_api_level_line_position(r.start as int, r.start as int, r.end as int, level);
    let i = begin.len() + j;
    assert(out.subrange(i, i + line.len()) =~= lines.subrange(j, j + line.len()));
    if j == 0 {
        reveal_strlit(":BEGIN\n");
        assert(out[i - 1] == begin[begin.len() - 1]);
    } else {
        assert(out[i - 1] == lines[j - 1]);
    }
    assert(begin =~= out.subrange(0, begin.len() as int));
    assert(finish =~= out.subrange(out.len() - finish.len(), out.len() as int));
    assert(0 < i && i + line.len() <= out.len() && out[i - 1] == '\n' && out.subrange(i, i + line.len()) == line);
    assert(begin.is_prefix_of(out));
    assert(finish.is_suffix_of(out));
    assert(line == "api-level-"@ + decimal(level) + " = ["@ + (if level > r.start {
        "\"api-level-"@ + decimal(level - 1) + "\""@
    } else {
        Seq::<char>::empty()
    }) + "]\n"@);
    i
}

} // verus!
