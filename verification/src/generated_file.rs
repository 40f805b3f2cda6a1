//! Guarding generated files: a file on disk is only ever overwritten when its first line
//! carries the generator's marker comment, and only rewritten when its contents change.

use vstd::prelude::*;
use crate::android_sys_gen::sys_gen_toml;
use crate::bindgen::bindgen_toml;
use crate::cargo_toml::{ApiLevelRange, FeatureDependencies, TOML_WARNING_LINE};
use crate::text::{chars_of, debug_quoted, debug_str, is_eol, push_chars, read_line_no_eol, starts_with, strip_eol};
use vstd::slice::slice_subrange;

verus! {

/// The comment that the first line of every generated file carries.
pub const MARKER_COMMENT: &'static str = "WARNING:  This file was autogenerated by jni-bindgen.  Any changes to this file may be lost!!!";

/// A first line that carries the marker: `// ` or `# `, then the marker comment exactly.
pub open spec fn is_marker_line(line: Seq<char>) -> bool {
    ||| "// "@.is_prefix_of(line) && line.skip("// "@.len() as int) == MARKER_COMMENT@
    ||| "# "@.is_prefix_of(line) && line.skip("# "@.len() as int) == MARKER_COMMENT@
}

/// Whether the rest of `s` after its first `k` characters is `t`.
fn rest_equals(s: &Vec<char>, k: usize, t: &Vec<char>) -> (r: bool)
    requires
        k <= s@.len(),
    ensures
        r == (s@.skip(k as int) == t@),
{
    if s.len() - k != t.len() {
        assert(s@.skip(k as int).len() != t@.len());
        return false;
    }
    let n = t.len();
    for i in 0..n
        invariant
            n == t@.len(),
            k + n == s@.len(),
            s@.len() == s.len(),
            forall|j: int| 0 <= j < i ==> s@[k + j] == t@[j],
    {
        if s[k + i] != t[i] {
            assert(s@.skip(k as int)[i as int] != t@[i as int]);
            return false;
        }
    }
    assert(s@.skip(k as int) =~= t@);
    true
}

/// Whether a first line, without its line ending, carries the marker.
pub fn first_line_has_marker(first_line: &str) -> (r: bool)
    ensures
        r == is_marker_line(first_line@),
{
    let line = chars_of(first_line);
    let marker = chars_of(MARKER_COMMENT);
    let slashes = chars_of("// ");
    let hash = chars_of("# ");
    let a = starts_with(first_line, "// ") && rest_equals(&line, slashes.len(), &marker);
    let b = starts_with(first_line, "# ") && rest_equals(&line, hash.len(), &marker);
    a || b
}

/// What writing a generated file does on disk.
pub enum GeneratedFileChange {
    /// No file was there: it is written.
    New,
    /// The file holds the same contents: it is left alone.
    Unchanged,
    /// The file holds other contents: it is overwritten.
    Modified,
}

impl GeneratedFileChange {
    /// Whether the contents are written to disk.
    pub fn writes(&self) -> (r: bool)
        ensures
            r == !(self is Unchanged),
    {
        match self {
            GeneratedFileChange::Unchanged => false,
            _ => true,
        }
    }

    /// The progress line that reports the change, for a file shown as `path`.
    pub fn progress_message(&self, path: &str) -> (r: String)
        ensures
            r@ == match self {
                GeneratedFileChange::New => "NEW: "@ + path@,
                GeneratedFileChange::Unchanged => "unchanged: "@ + path@ + "..."@,
                GeneratedFileChange::Modified => "MODIFIED: "@ + path@,
            },
    {
        let mut m = String::new();
        match self {
            GeneratedFileChange::New => {
                m.append("NEW: ");
                m.append(path);
            },
            GeneratedFileChange::Unchanged => {
                m.append("unchanged: ");
                m.append(path);
                m.append("...");
            },
            GeneratedFileChange::Modified => {
                m.append("MODIFIED: ");
                m.append(path);
            },
        }
        m
    }
}

/// An existing file whose first line lacks the marker: it must not be overwritten.
pub struct MarkerMismatch {
    pub first_line: String,
}

impl MarkerMismatch {
    /// The error message, for a file whose path `{:?}` wrote as `quoted_path`.
    pub fn message(&self, quoted_path: &str) -> (r: String)
        ensures
            r@ == "Cannot overwrite "@ + quoted_path@ + ":  File exists, and first line "@
                + debug_quoted(self.first_line@) + " doesn't match expected MARKER_COMMENT "@
                + debug_quoted(MARKER_COMMENT@),
    {
        let mut m = String::new();
        m.append("Cannot overwrite ");
        m.append(quoted_path);
        m.append(":  File exists, and first line ");
        let q = debug_str(self.first_line.as_str());
        m.append(q.as_str());
        m.append(" doesn't match expected MARKER_COMMENT ");
        let qm = debug_str(MARKER_COMMENT);
        m.append(qm.as_str());
        m
    }
}

/// How many characters the first line of a text takes, its line feed included: the text
/// up to and including the first `'\n'`, or all of it when it holds none.
pub open spec fn first_line_len(text: Seq<char>) -> int
    decreases text.len(),
{
    if text.len() == 0 {
        0
    } else if text[0] == '\n' {
        1
    } else {
        1 + first_line_len(text.skip(1))
    }
}

/// The first line of a text as the generator reads it: without its line ending.
pub open spec fn first_line(text: Seq<char>) -> Seq<char> {
    strip_eol(text.take(first_line_len(text)))
}

/// What follows the first line of a text.
pub open spec fn after_first_line(text: Seq<char>) -> Seq<char> {
    text.skip(first_line_len(text))
}

/// The text of an optional file.
pub open spec fn text_of(file: Option<&str>) -> Option<Seq<char>> {
    match file {
        Some(t) => Some(t@),
        None => None,
    }
}

/// What writing `contents` does when the file on disk holds `existing` (`None`: no file):
/// `None` when the write is refused because the first line lacks the marker; else the
/// change. The file is compared from its second line on with the new contents.
pub open spec fn generated_file_change(existing: Option<Seq<char>>, contents: Seq<char>) -> Option<
    GeneratedFileChange,
> {
    match existing {
        None => Some(GeneratedFileChange::New),
        Some(t) => if !is_marker_line(first_line(t)) {
            None
        } else if after_first_line(t) != contents {
            Some(GeneratedFileChange::Modified)
        } else {
            Some(GeneratedFileChange::Unchanged)
        },
    }
}

/// The file on disk after writing `contents` over `existing`: the new contents when they
/// are written, else what was there.
pub open spec fn file_after_write(existing: Option<Seq<char>>, contents: Seq<char>) -> Option<
    Seq<char>,
> {
    match generated_file_change(existing, contents) {
        Some(GeneratedFileChange::New) => Some(contents),
        Some(GeneratedFileChange::Modified) => Some(contents),
        _ => existing,
    }
}

fn first_line_length(cs: &Vec<char>) -> (k: usize)
    ensures
        k == first_line_len(cs@),
        k <= cs@.len(),
{
    let n = cs.len();
    let mut k: usize = 0;
    assert(cs@.skip(0) =~= cs@);
    while k < n
        invariant
            k <= n,
            n == cs@.len(),
            forall|j: int| 0 <= j < k ==> cs@[j] != '\n',
            first_line_len(cs@) == k + first_line_len(cs@.skip(k as int)),
        decreases n - k,
    {
        assert(cs@.skip(k as int).skip(1) =~= cs@.skip(k + 1));
        if cs[k] == '\n' {
            return k + 1;
        }
        k = k + 1;
    }
    assert(cs@.skip(n as int).len() == 0);
    k
}

fn change_for(first_line: &str, differs: bool) -> (r: Result<GeneratedFileChange, MarkerMismatch>)
    ensures
        !is_marker_line(first_line@) ==> (r matches Err(e) && e.first_line@ == first_line@),
        is_marker_line(first_line@) && differs ==> (r matches Ok(c) && c is Modified),
        is_marker_line(first_line@) && !differs ==> (r matches Ok(c) && c is Unchanged),
{
    if !first_line_has_marker(first_line) {
        Err(MarkerMismatch { first_line: first_line.to_string() })
    } else if differs {
        Ok(GeneratedFileChange::Modified)
    } else {
        Ok(GeneratedFileChange::Unchanged)
    }
}

/// Decides what writing `contents` to a generated file does, given the text of the file
/// on disk (`None` when there is none): a missing file is written; an existing one is
/// refused unless its first line carries the marker, left alone when everything after its
/// first line equals `contents`, and overwritten otherwise.
pub fn write_generated(existing: Option<&str>, contents: &str) -> (r: Result<
    GeneratedFileChange,
    MarkerMismatch,
>)
    ensures
        r is Ok <==> generated_file_change(text_of(existing), contents@) is Some,
        r matches Ok(c) ==> generated_file_change(text_of(existing), contents@) == Some(c),
        r matches Err(e) ==> (existing matches Some(t) && e.first_line@ == first_line(t@)),
{
    match existing {
        None => Ok(GeneratedFileChange::New),
        Some(t) => {
            let cs = chars_of(t);
            let k = first_line_length(&cs);
            let mut line = String::new();
            push_chars(&mut line, slice_subrange(cs.as_slice(), 0, k));
            let mut first = String::new();
            read_line_no_eol(line.as_str(), &mut first);
            assert(Seq::<char>::empty() + line@ =~= t@.take(k as int));
            let wanted = chars_of(contents);
            let differs = !rest_equals(&cs, k, &wanted);
            change_for(first.as_str(), differs)
        },
    }
}

/// The first line of a text ends just after its first line feed, or at the end of the
/// text when it holds none: no line feed comes before that point, and the character just
/// before it is a line feed unless the text ends there.
pub proof fn lemma_first_line_len(t: Seq<char>)
    ensures
        0 <= first_line_len(t) <= t.len(),
        t.len() > 0 ==> first_line_len(t) > 0,
        forall|j: int| 0 <= j < first_line_len(t) - 1 ==> t[j] != '\n',
        0 < first_line_len(t) < t.len() ==> t[first_line_len(t) - 1] == '\n',
        first_line_len(t) == t.len() && t.len() > 0 ==> (t[t.len() - 1] == '\n' || !t.contains('\n')),
    decreases t.len(),
{
    if t.len() > 0 && t[0] != '\n' {
        let u = t.skip(1);
        lemma_first_line_len(u);
        assert forall|j: int| 0 <= j < first_line_len(t) - 1 implies t[j] != '\n' by {
            if j > 0 {
                assert(t[j] == u[j - 1]);
            }
        }
        if 0 < first_line_len(t) < t.len() {
            assert(t[first_line_len(t) - 1] == u[first_line_len(u) - 1]);
        }
        if first_line_len(t) == t.len() && t[t.len() - 1] != '\n' {
            assert(u.len() > 0 ==> u[u.len() - 1] == t[t.len() - 1]);
            if t.contains('\n') {
                let k = choose|k: int| 0 <= k < t.len() && t[k] == '\n';
                assert(k > 0);
                assert(u[k - 1] == '\n');
                assert(u.contains('\n'));
            }
        }
    }
}

/// What a write does to an existing file is decided by comparison: a file whose first line
/// lacks the marker is refused; a marked file is left unchanged exactly when everything
/// after its first line equals the new contents, character for character, and is
/// modified otherwise; a missing file is new.
pub proof fn lemma_change_by_comparison(t: Seq<char>, contents: Seq<char>)
    ensures
        generated_file_change(None, contents) == Some(GeneratedFileChange::New),
        !is_marker_line(first_line(t)) ==> generated_file_change(Some(t), contents) is None,
        is_marker_line(first_line(t)) && t.skip(first_line_len(t)) == contents
            ==> generated_file_change(Some(t), contents) == Some(GeneratedFileChange::Unchanged),
        is_marker_line(first_line(t)) && t.skip(first_line_len(t)) != contents
            ==> generated_file_change(Some(t), contents) == Some(GeneratedFileChange::Modified),
{
}

/// Writing marked contents again changes nothing: once a write of contents whose first
/// line carries the marker has succeeded, the same write succeeds again and leaves the
/// file as it was.
pub proof fn lemma_rewrite_is_stable(existing: Option<Seq<char>>, contents: Seq<char>)
    requires
        is_marker_line(first_line(contents)),
        generated_file_change(existing, contents) is Some,
    ensures
        generated_file_change(file_after_write(existing, contents), contents) is Some,
        file_after_write(file_after_write(existing, contents), contents) == file_after_write(
            existing,
            contents,
        ),
{
}

/// A file written with unmarked contents is never overwritten: every later write to it is
/// refused and leaves those contents in place.
pub proof fn lemma_unmarked_file_is_kept(first: Seq<char>, later: Seq<char>)
    requires
        !is_marker_line(first_line(first)),
    ensures
        file_after_write(None, first) == Some(first),
        generated_file_change(file_after_write(None, first), later) is None,
        file_after_write(file_after_write(None, first), later) == Some(first),
{
}

proof fn lemma_first_line_len_of_prefix(p: Seq<char>, rest: Seq<char>)
    requires
        !p.contains('\n'),
    ensures
        first_line_len(p + seq!['\n'] + rest) == p.len() + 1,
    decreases p.len(),
{
    let t = p + seq!['\n'] + rest;
    if p.len() == 0 {
        assert(t[0] == '\n');
    } else {
        let q = p.skip(1);
        assert(!q.contains('\n')) by {
            if q.contains('\n') {
                let k = choose|k: int| 0 <= k < q.len() && q[k] == '\n';
                assert(p[k + 1] == '\n');
            }
        }
        assert(p[0] != '\n');
        assert(t.skip(1) =~= q + seq!['\n'] + rest);
        lemma_first_line_len_of_prefix(q, rest);
    }
}

/// Every generated `Cargo.toml` may later be overwritten by the generator: its first line,
/// up to the first line feed, is the warning line, and that line carries the marker.
pub proof fn lemma_generated_toml_is_marked(
    template: Seq<Seq<char>>,
    features: Seq<FeatureDependencies>,
    optional_levels: Option<ApiLevelRange>,
    levels: ApiLevelRange,
)
    ensures
        is_marker_line(TOML_WARNING_LINE@),
        !TOML_WARNING_LINE@.contains('\n'),
        (TOML_WARNING_LINE@ + "\n"@).is_prefix_of(bindgen_toml(template, optional_levels, features)),
        (TOML_WARNING_LINE@ + "\n"@).is_prefix_of(sys_gen_toml(template, levels, features)),
        is_marker_line(first_line(bindgen_toml(template, optional_levels, features))),
        is_marker_line(first_line(sys_gen_toml(template, levels, features))),
{
    reveal_strlit("# WARNING:  This file was autogenerated by jni-bindgen.  Any changes to this file may be lost!!!");
    reveal_strlit("WARNING:  This file was autogenerated by jni-bindgen.  Any changes to this file may be lost!!!");
    reveal_strlit("# ");
    reveal_strlit("\n");
    let w = TOML_WARNING_LINE@;
    assert(w.skip(2) =~= MARKER_COMMENT@);
    assert("# "@ =~= w.subrange(0, 2));
    assert(!w.contains('\n')) by {
        if w.contains('\n') {
            let k = choose|k: int| 0 <= k < w.len() && w[k] == '\n';
            assert(w[k] != '\n');
        }
    }
    let h = w + "\n"@;
    let b = bindgen_toml(template, optional_levels, features);
    let g = sys_gen_toml(template, levels, features);
    assert(h =~= b.subrange(0, h.len() as int));
    assert(h =~= g.subrange(0, h.len() as int));
    assert("\n"@ =~= seq!['\n']);
    assert(b =~= w + seq!['\n'] + b.skip(h.len() as int));
    assert(g =~= w + seq!['\n'] + g.skip(h.len() as int));
    lemma_first_line_len_of_prefix(w, b.skip(h.len() as int));
    lemma_first_line_len_of_prefix(w, g.skip(h.len() as int));
    assert(b.take(w.len() + 1int) =~= w.push('\n'));
    assert(g.take(w.len() + 1int) =~= w.push('\n'));
    assert(w.push('\n').drop_last() =~= w);
    assert(w.len() > 0 && !is_eol(w.last()));
    assert(strip_eol(w) == w);
}

} // verus!
