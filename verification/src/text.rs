//! Small string tools with exact contracts: decimal rendering, comparison,
//! prefix tests and removal of line endings.

use vstd::prelude::*;

verus! {

/// Claimed of std's `String::push`: the string gains `ch` at its end and nothing else changes.
pub assume_specification[ String::push ](s: &mut String, ch: char)
    ensures
        final(s)@ == old(s)@.push(ch),
;

/// The character of a decimal digit `d` (`0 <= d < 10`).
pub open spec fn digit_char(d: int) -> char {
    (48 + d) as char
}

/// The decimal digits of a natural number, most significant first, no leading zeros.
pub open spec fn decimal_digits(n: nat) -> Seq<char>
    decreases n,
{
    if n < 10 {
        seq![digit_char(n as int)]
    } else {
        decimal_digits(n / 10).push(digit_char((n % 10) as int))
    }
}

/// How `{}` renders an integer: an optional minus sign, then the decimal digits.
pub open spec fn decimal(n: int) -> Seq<char> {
    if n < 0 {
        seq!['-'] + decimal_digits((-n) as nat)
    } else {
        decimal_digits(n as nat)
    }
}

fn push_digits(out: &mut String, m: u64)
    ensures
        final(out)@ == old(out)@ + decimal_digits(m as nat),
    decreases m,
{
    if m >= 10 {
        push_digits(out, m / 10);
    }
    let d: u8 = (m % 10) as u8;
    let c: char = (48u8 + d) as char;
    out.push(c);
    proof {
        assert(c == digit_char((m % 10) as int));
    }
}

/// Appends the decimal rendering of `n` to `out`.
pub fn push_decimal(out: &mut String, n: i32)
    ensures
        final(out)@ == old(out)@ + decimal(n as int),
{
    if n < 0 {
        out.push('-');
        let m: u64 = (-(n as i64)) as u64;
        push_digits(out, m);
    } else {
        let m: u64 = n as u64;
        push_digits(out, m);
    }
}

/// The characters of `s`, in order.
pub fn chars_of(s: &str) -> (v: Vec<char>)
    ensures
        v@ == s@,
{
    let mut v: Vec<char> = Vec::new();
    for c in it: s.chars()
        invariant
            v@ == it.seq().take(it.index() as int),
    {
        v.push(c);
    }
    v
}

/// Claimed of std's `String::pop`: it removes and returns the last character; on an empty
/// string it returns `None` and changes nothing.
pub assume_specification[ String::pop ](s: &mut String) -> (r: Option<char>)
    ensures
        old(s)@.len() == 0 ==> r is None && final(s)@ == old(s)@,
        old(s)@.len() > 0 ==> r == Some(old(s)@.last()) && final(s)@ == old(s)@.drop_last(),
;

/// Appends every character of `v` to `out`.
pub fn push_chars(out: &mut String, v: &[char])
    ensures
        final(out)@ == old(out)@ + v@,
{
    let n = v.len();
    for i in 0..n
        invariant
            n == v@.len(),
            out@ == old(out)@ + v@.take(i as int),
    {
        out.push(v[i]);
        assert(v@.take(i + 1) == v@.take(i as int).push(v@[i as int]));
    }
    assert(v@.take(n as int) == v@);
}

/// Whether `a` and `b` hold the same characters.
pub fn str_eq(a: &str, b: &str) -> (r: bool)
    ensures
        r == (a@ == b@),
{
    let x = chars_of(a);
    let y = chars_of(b);
    if x.len() != y.len() {
        return false;
    }
    let n = x.len();
    for i in 0..n
        invariant
            n == x@.len(),
            n == y@.len(),
            x@ == a@,
            y@ == b@,
            forall|j: int| 0 <= j < i ==> x@[j] == y@[j],
    {
        if x[i] != y[i] {
            assert(a@[i as int] != b@[i as int]);
            return false;
        }
    }
    assert(x@ =~= y@);
    true
}

/// Whether `s` begins with `prefix`.
pub fn starts_with(s: &str, prefix: &str) -> (r: bool)
    ensures
        r == prefix@.is_prefix_of(s@),
{
    let x = chars_of(s);
    let p = chars_of(prefix);
    if p.len() > x.len() {
        return false;
    }
    let n = p.len();
    for i in 0..n
        invariant
            n == p@.len(),
            n <= x@.len(),
            p@ == prefix@,
            x@ == s@,
            forall|j: int| 0 <= j < i ==> p@[j] == x@[j],
    {
        if p[i] != x[i] {
            assert(prefix@[i as int] != s@.subrange(0, prefix@.len() as int)[i as int]);
            return false;
        }
    }
    true
}

/// Line-ending characters: carriage return and line feed.
pub open spec fn is_eol(c: char) -> bool {
    c == '\r' || c == '\n'
}

/// `s` without every carriage return and line feed at its end.
pub open spec fn strip_eol(s: Seq<char>) -> Seq<char>
    decreases s.len(),
{
    if s.len() > 0 && is_eol(s.last()) {
        strip_eol(s.drop_last())
    } else {
        s
    }
}

/// `line` with every trailing `'\r'` and `'\n'` removed.
pub fn trim_line_end(line: &str) -> (r: String)
    ensures
        r@ == strip_eol(line@),
{
    let v = chars_of(line);
    let mut k = v.len();
    assert(v@.take(k as int) == v@);
    while k > 0 && (v[k - 1] == '\r' || v[k - 1] == '\n')
        invariant
            k <= v@.len(),
            strip_eol(v@.take(k as int)) == strip_eol(v@),
        decreases k,
    {
        assert(v@.take(k as int).drop_last() == v@.take(k - 1));
        k = k - 1;
    }
    assert(v@.take(v@.len() as int) == v@);
    let mut out = String::new();
    push_chars(&mut out, vstd::slice::slice_subrange(v.as_slice(), 0, k));
    out
}

/// Appends one line, as it was read (terminator included, if any), to `buffer`; then
/// drops every `'\r'` and `'\n'` at the end of `buffer`. Returns the number of bytes read.
pub fn read_line_no_eol(line: &str, buffer: &mut String) -> (size: usize)
    ensures
        final(buffer)@ == strip_eol(old(buffer)@ + line@),
        size == vstd::utf8::encode_utf8(line@).len() as usize,
{
    let size = line.len();
    buffer.append(line);
    let ghost all = old(buffer)@ + line@;
    loop
        invariant
            strip_eol(buffer@) == strip_eol(all),
        ensures
            buffer@ == strip_eol(all),
        decreases buffer@.len(),
    {
        let ghost before = buffer@;
        match buffer.pop() {
            Some(c) => {
                if c != '\r' && c != '\n' {
                    buffer.push(c);
                    assert(buffer@ =~= before);
                    break;
                }
            },
            None => {
                break;
            },
        }
    }
    size
}

/// What `{:?}` writes for a text (std's `impl Debug for str`: the text quoted, with escapes).
pub uninterp spec fn debug_quoted(s: Seq<char>) -> Seq<char>;

/// Renders `s` with `format!("{:?}", s)`, that is std's `Debug` for `str`. Claimed: the
/// result is `debug_quoted` of the text, a function of the text alone; how it quotes and
/// escapes is left unsaid.
#[verifier::external_body]
pub(crate) fn debug_str(s: &str) -> (r: String)
    ensures
        r@ == debug_quoted(s@),
{
    format!("{:?}", s)
}

/// Removing line endings keeps a prefix, leaves no line ending at the end, removes only
/// line endings, and removing them again changes nothing.
pub proof fn lemma_strip_eol(s: Seq<char>)
    ensures
        strip_eol(s).is_prefix_of(s),
        strip_eol(s).len() > 0 ==> !is_eol(strip_eol(s).last()),
        forall|i: int| strip_eol(s).len() <= i < s.len() ==> is_eol(#[trigger] s[i]),
        strip_eol(strip_eol(s)) == strip_eol(s),
    decreases s.len(),
{
    if s.len() > 0 && is_eol(s.last()) {
        lemma_strip_eol(s.drop_last());
        assert forall|i: int| strip_eol(s).len() <= i < s.len() implies is_eol(#[trigger] s[i]) by {
            if i < s.len() - 1 {
                assert(s[i] == s.drop_last()[i]);
            }
        }
    }
}

} // verus!
