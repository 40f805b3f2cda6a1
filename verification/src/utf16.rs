//! Java strings as their UTF-16 code units: encoding Rust text for JNI and decoding
//! what JNI hands back, strictly or with replacement characters.

use vstd::prelude::*;
use crate::text::{chars_of, debug_quoted, debug_str};

verus! {

/// Claimed of std's `char::from_u32`: the character of a Unicode scalar value, and `None`
/// for a surrogate code point or a value above `0x10FFFF`.
pub assume_specification[ char::from_u32 ](i: u32) -> (r: Option<char>)
    ensures
        r == (if i <= 0xD7FF || (0xE000 <= i && i <= 0x10FFFF) {
            Some(i as char)
        } else {
            None::<char>
        }),
;

/// The character put in place of an unpaired surrogate: U+FFFD.
pub open spec fn replacement_char() -> char {
    '\u{FFFD}'
}

pub open spec fn is_high_surrogate(u: u16) -> bool {
    0xD800 <= u <= 0xDBFF
}

pub open spec fn is_low_surrogate(u: u16) -> bool {
    0xDC00 <= u <= 0xDFFF
}

/// The code units of one character: itself below U+10000, else a surrogate pair.
pub open spec fn char_utf16(c: char) -> Seq<u16> {
    if (c as int) < 0x10000 {
        seq![c as u16]
    } else {
        seq![
            (0xD800 + ((c as int) - 0x10000) / 0x400) as u16,
            (0xDC00 + ((c as int) - 0x10000) % 0x400) as u16,
        ]
    }
}

/// The UTF-16 encoding of a text.
pub open spec fn utf16_encode(s: Seq<char>) -> Seq<u16>
    decreases s.len(),
{
    if s.len() == 0 {
        seq![]
    } else {
        utf16_encode(s.drop_last()) + char_utf16(s.last())
    }
}

/// The scalar value a high and a low surrogate stand for together.
pub open spec fn surrogate_pair_value(hi: u16, lo: u16) -> int {
    0x10000 + (hi - 0xD800) * 0x400 + (lo - 0xDC00)
}

/// Decoding of code units, front to back: a high surrogate followed by a low one gives
/// one character; any other surrogate gives `Err` with that unit, and decoding goes on
/// with the next unit; every other unit is a character of its own.
pub open spec fn utf16_decode(units: Seq<u16>) -> Seq<Result<char, u16>>
    decreases units.len(),
{
    if units.len() == 0 {
        seq![]
    } else if units.len() >= 2 && is_high_surrogate(units[0]) && is_low_surrogate(units[1]) {
        seq![Ok(surrogate_pair_value(units[0], units[1]) as char)] + utf16_decode(units.skip(2))
    } else if is_high_surrogate(units[0]) || is_low_surrogate(units[0]) {
        seq![Err(units[0])] + utf16_decode(units.skip(1))
    } else {
        seq![Ok(units[0] as char)] + utf16_decode(units.skip(1))
    }
}

/// All the characters when every item decoded; else the unit of the first error.
pub open spec fn collect_chars(d: Seq<Result<char, u16>>) -> Result<Seq<char>, u16>
    decreases d.len(),
{
    if d.len() == 0 {
        Ok(seq![])
    } else {
        match d[0] {
            Err(u) => Err(u),
            Ok(c) => match collect_chars(d.skip(1)) {
                Ok(cs) => Ok(seq![c] + cs),
                Err(u) => Err(u),
            },
        }
    }
}

/// Every error replaced by U+FFFD.
pub open spec fn replace_errors(d: Seq<Result<char, u16>>) -> Seq<char> {
    d.map_values(
        |r: Result<char, u16>|
            match r {
                Ok(c) => c,
                Err(_) => replacement_char(),
            },
    )
}

/// Strict decoding: the text, or the first unpaired surrogate.
pub open spec fn utf16_decode_strict(units: Seq<u16>) -> Result<Seq<char>, u16> {
    collect_chars(utf16_decode(units))
}

/// Lossy decoding: unpaired surrogates become U+FFFD.
pub open spec fn utf16_decode_lossy(units: Seq<u16>) -> Seq<char> {
    replace_errors(utf16_decode(units))
}

spec fn prefixed(p: Seq<char>, r: Result<Seq<char>, u16>) -> Result<Seq<char>, u16> {
    match r {
        Ok(cs) => Ok(p + cs),
        Err(u) => Err(u),
    }
}

/// A code unit sequence that is not UTF-16: it holds an unpaired surrogate.
pub struct DecodeUtf16Error {
    pub unpaired: u16,
}

impl DecodeUtf16Error {
    /// The unpaired surrogate that made decoding fail.
    pub fn unpaired_surrogate(&self) -> (u: u16)
        ensures
            u == self.unpaired,
    {
        self.unpaired
    }
}

/// The text of a Java string, held as its UTF-16 code units (not always valid UTF-16).
pub struct JavaString {
    units: Vec<u16>,
}

impl View for JavaString {
    type V = Seq<u16>;

    closed spec fn view(&self) -> Seq<u16> {
        self.units@
    }
}

/// Decodes the item that starts at unit `i`; returns it and how many units it took.
fn decode_at(units: &[u16], i: usize) -> (r: (Result<char, u16>, usize))
    requires
        i < units@.len(),
    ensures
        r.1 == 1 || r.1 == 2,
        i + r.1 <= units@.len(),
        utf16_decode(units@.skip(i as int)) == seq![r.0] + utf16_decode(units@.skip(i + r.1)),
{
    let ghost s = units@.skip(i as int);
    let u = units[i];
    if i + 1 < units.len() && 0xD800 <= u && u <= 0xDBFF && 0xDC00 <= units[i + 1]
        && units[i + 1] <= 0xDFFF {
        let lo = units[i + 1];
        let v: u32 = 0x10000 + ((u - 0xD800) as u32) * 0x400 + ((lo - 0xDC00) as u32);
        assert(s.skip(2) =~= units@.skip(i + 2));
        match char::from_u32(v) {
            Some(c) => (Ok(c), 2),
            None => {
                assert(false);
                (Err(u), 2)
            },
        }
    } else if 0xD800 <= u && u <= 0xDFFF {
        assert(s.skip(1) =~= units@.skip(i + 1));
        (Err(u), 1)
    } else {
        assert(s.skip(1) =~= units@.skip(i + 1));
        match char::from_u32(u as u32) {
            Some(c) => (Ok(c), 1),
            None => {
                assert(false);
                (Err(u), 1)
            },
        }
    }
}

fn push_units(out: &mut Vec<u16>, c: char)
    ensures
        final(out)@ == old(out)@ + char_utf16(c),
{
    let v = c as u32;
    if v < 0x10000 {
        out.push(v as u16);
        assert(out@ =~= old(out)@ + char_utf16(c));
    } else {
        let w = v - 0x10000;
        out.push((0xD800 + w / 0x400) as u16);
        out.push((0xDC00 + w % 0x400) as u16);
        assert(out@ =~= old(out)@ + char_utf16(c));
    }
}

impl JavaString {
    /// A Java string of the given code units.
    pub fn from_utf16(units: Vec<u16>) -> (r: Self)
        ensures
            r@ == units@,
    {
        JavaString { units }
    }

    /// The Java string of a Rust text: its UTF-16 encoding.
    pub fn encode(s: &str) -> (r: Self)
        ensures
            r@ == utf16_encode(s@),
    {
        let cs = chars_of(s);
        let mut units: Vec<u16> = Vec::new();
        let n = cs.len();
        for i in 0..n
            invariant
                n == cs@.len(),
                units@ == utf16_encode(cs@.take(i as int)),
        {
            assert(cs@.take(i + 1).drop_last() == cs@.take(i as int));
            push_units(&mut units, cs[i]);
        }
        assert(cs@.take(n as int) == cs@);
        JavaString { units }
    }

    /// The code units.
    pub fn utf16(&self) -> (r: &[u16])
        ensures
            r@ == self@,
    {
        self.units.as_slice()
    }

    /// The number of code units as a JNI `jsize` (a 32-bit signed count, taken modulo 2^32).
    pub fn jni_length(&self) -> (n: i32)
        ensures
            n == self@.len() as i32,
    {
        self.units.len() as i32
    }

    /// The text, or the first unpaired surrogate if the units are not valid UTF-16.
    pub fn to_string(&self) -> (r: Result<String, DecodeUtf16Error>)
        ensures
            match utf16_decode_strict(self@) {
                Ok(cs) => r matches Ok(s) && s@ == cs,
                Err(u) => r matches Err(e) && e.unpaired == u,
            },
    {
        let units = self.units.as_slice();
        let n = units.len();
        let mut out = String::new();
        let mut i: usize = 0;
        assert(units@.skip(0) == units@);
        while i < n
            invariant
                i <= n,
                n == units@.len(),
                units@ == self@,
                utf16_decode_strict(self@) == prefixed(
                    out@,
                    collect_chars(utf16_decode(units@.skip(i as int))),
                ),
            decreases n - i,
        {
            let (item, k) = decode_at(units, i);
            let ghost rest = utf16_decode(units@.skip(i + k));
            let ghost d = utf16_decode(units@.skip(i as int));
            assert(d.skip(1) =~= rest);
            match item {
                Ok(c) => {
                    let ghost before = out@;
                    out.push(c);
                    assert(forall|cs: Seq<char>| before + (seq![c] + cs) =~= before.push(c) + cs);
                },
                Err(u) => {
                    return Err(DecodeUtf16Error { unpaired: u });
                },
            }
            i = i + k;
        }
        assert(units@.skip(n as int) =~= Seq::<u16>::empty());
        assert(out@ + Seq::<char>::empty() =~= out@);
        Ok(out)
    }

    /// The text, with U+FFFD in place of every unpaired surrogate.
    pub fn to_string_lossy(&self) -> (r: String)
        ensures
            r@ == utf16_decode_lossy(self@),
    {
        let units = self.units.as_slice();
        let n = units.len();
        let mut out = String::new();
        let mut i: usize = 0;
        let ghost mut items: Seq<Result<char, u16>> = seq![];
        assert(units@.skip(0) == units@);
        while i < n
            invariant
                i <= n,
                n == units@.len(),
                units@ == self@,
                items + utf16_decode(units@.skip(i as int)) == utf16_decode(self@),
                out@ == replace_errors(items),
            decreases n - i,
        {
            let (item, k) = decode_at(units, i);
            let c = match item {
                Ok(c) => c,
                Err(_) => '\u{FFFD}',
            };
            out.push(c);
            proof {
                let rest = utf16_decode(units@.skip(i + k));
                assert(items.push(item) + rest =~= items + (seq![item] + rest));
                assert(replace_errors(items.push(item)) =~= replace_errors(items).push(c));
                items = items.push(item);
            }
            i = i + k;
        }
        assert(units@.skip(n as int) =~= Seq::<u16>::empty());
        assert(items + Seq::<Result<char, u16>>::empty() =~= items);
        out
    }

    /// The text as `{:?}` writes it, unpaired surrogates shown as U+FFFD.
    pub fn debug_string(&self) -> (r: String)
        ensures
            r@ == debug_quoted(utf16_decode_lossy(self@)),
    {
        let lossy = self.to_string_lossy();
        debug_str(lossy.as_str())
    }
}

proof fn lemma_encode_prepend(c: char, t: Seq<char>)
    ensures
        utf16_encode(seq![c] + t) == char_utf16(c) + utf16_encode(t),
    decreases t.len(),
{
    if t.len() == 0 {
        let sc = seq![c] + t;
        assert(sc.drop_last() =~= Seq::<char>::empty());
        assert(sc.last() == c);
        assert(utf16_encode(sc.drop_last()) =~= Seq::<u16>::empty());
        assert(utf16_encode(t) =~= Seq::<u16>::empty());
        assert(Seq::<u16>::empty() + char_utf16(c) =~= char_utf16(c));
        assert(char_utf16(c) + Seq::<u16>::empty() =~= char_utf16(c));
    } else {
        lemma_encode_prepend(c, t.drop_last());
        assert((seq![c] + t).drop_last() =~= seq![c] + t.drop_last());
        assert((seq![c] + t).last() == t.last());
        assert(char_utf16(c) + utf16_encode(t.drop_last()) + char_utf16(t.last())
            =~= char_utf16(c) + (utf16_encode(t.drop_last()) + char_utf16(t.last())));
    }
}

proof fn lemma_decode_char(c: char, rest: Seq<u16>)
    ensures
        utf16_decode(char_utf16(c) + rest) == seq![Ok::<char, u16>(c)] + utf16_decode(rest),
{
    let u = char_utf16(c) + rest;
    if (c as int) < 0x10000 {
        assert(u.skip(1) =~= rest);
    } else {
        let w = (c as int) - 0x10000;
        assert(0 <= w / 0x400 < 0x400);
        assert(w == 0x400 * (w / 0x400) + w % 0x400);
        assert(u.skip(2) =~= rest);
        assert(surrogate_pair_value(u[0], u[1]) == c as int);
    }
}

/// Decoding gives back every text that was encoded: for every text `s`, strict decoding
/// of its UTF-16 encoding succeeds and yields `s`.
pub proof fn lemma_utf16_round_trip(s: Seq<char>)
    ensures
        utf16_decode_strict(utf16_encode(s)) == Ok::<Seq<char>, u16>(s),
    decreases s.len(),
{
    if s.len() == 0 {
        assert(s =~= Seq::<char>::empty());
        assert(utf16_encode(s) =~= Seq::<u16>::empty());
        assert(utf16_decode(utf16_encode(s)) =~= Seq::<Result<char, u16>>::empty());
    } else {
        let t = s.drop_first();
        assert(s =~= seq![s[0]] + t);
        lemma_encode_prepend(s[0], t);
        lemma_decode_char(s[0], utf16_encode(t));
        lemma_utf16_round_trip(t);
        let d = utf16_decode(utf16_encode(s));
        assert(d == seq![Ok::<char, u16>(s[0])] + utf16_decode(utf16_encode(t)));
        assert(d.skip(1) =~= utf16_decode(utf16_encode(t)));
        assert(d[0] == Ok::<char, u16>(s[0]));
        assert(collect_chars(d.skip(1)) == Ok::<Seq<char>, u16>(t));
        assert(collect_chars(d) == Ok::<Seq<char>, u16>(seq![s[0]] + t));
    }
}

proof fn lemma_collect_replace(d: Seq<Result<char, u16>>)
    ensures
        collect_chars(d) matches Ok(cs) ==> replace_errors(d) == cs,
    decreases d.len(),
{
    if d.len() > 0 {
        lemma_collect_replace(d.skip(1));
        if let Ok(cs) = collect_chars(d) {
            assert(replace_errors(d) =~= seq![replace_errors(d)[0]] + replace_errors(d.skip(1)));
        }
    }
}

/// Lossy decoding agrees with strict decoding wherever strict decoding succeeds.
pub proof fn lemma_lossy_agrees_with_strict(units: Seq<u16>)
    ensures
        utf16_decode_strict(units) matches Ok(cs) ==> utf16_decode_lossy(units) == cs,
{
    lemma_collect_replace(utf16_decode(units));
}

proof fn lemma_collect_error_replaced(d: Seq<Result<char, u16>>)
    ensures
        collect_chars(d) is Err ==> replace_errors(d).contains(replacement_char()),
    decreases d.len(),
{
    if d.len() > 0 {
        lemma_collect_error_replaced(d.skip(1));
        if collect_chars(d) is Err {
            if d[0] is Err {
                assert(replace_errors(d)[0] == replacement_char());
            } else {
                let j = choose|j: int|
                    0 <= j < replace_errors(d.skip(1)).len() && replace_errors(d.skip(1))[j]
                        == replacement_char();
                assert(replace_errors(d)[j + 1] == replace_errors(d.skip(1))[j]);
            }
        }
    }
}

/// When strict decoding fails, the lossy text shows it: it holds a U+FFFD.
pub proof fn lemma_lossy_marks_failure(units: Seq<u16>)
    ensures
        utf16_decode_strict(units) is Err ==> utf16_decode_lossy(units).contains(
            replacement_char(),
        ),
{
    lemma_collect_error_replaced(utf16_decode(units));
}

/// How one character is encoded: a character below U+10000 is the single unit equal to
/// its scalar value; any other is a high surrogate then a low surrogate whose offsets
/// from 0xD800 and 0xDC00 are the high and low ten bits of its value minus 0x10000.
pub proof fn lemma_char_utf16_units(c: char)
    ensures
        (c as int) < 0x10000 ==> char_utf16(c).len() == 1 && char_utf16(c)[0] as int == c as int,
        (c as int) >= 0x10000 ==> {
            let u = char_utf16(c);
            &&& u.len() == 2
            &&& 0xD800 <= u[0] <= 0xDBFF
            &&& 0xDC00 <= u[1] <= 0xDFFF
            &&& 0x10000 + (u[0] - 0xD800) * 0x400 + (u[1] - 0xDC00) == c as int
        },
{
    if (c as int) >= 0x10000 {
        let w = (c as int) - 0x10000;
        assert(0 <= w / 0x400 < 0x400);
        assert(w == 0x400 * (w / 0x400) + w % 0x400);
    }
}

/// The encoding of a text is the encodings of its characters one after the other: the
/// encoding of a concatenation is the concatenation of the encodings.
pub proof fn lemma_utf16_encode_concat(a: Seq<char>, b: Seq<char>)
    ensures
        utf16_encode(a + b) == utf16_encode(a) + utf16_encode(b),
    decreases b.len(),
{
    if b.len() == 0 {
        assert(a + b =~= a);
        assert(utf16_encode(a) + Seq::<u16>::empty() =~= utf16_encode(a));
    } else {
        lemma_utf16_encode_concat(a, b.drop_last());
        assert((a + b).drop_last() =~= a + b.drop_last());
        assert((a + b).last() == b.last());
        assert(utf16_encode(a) + utf16_encode(b.drop_last()) + char_utf16(b.last()) =~= utf16_encode(a)
            + (utf16_encode(b.drop_last()) + char_utf16(b.last())));
    }
}

/// The encoding of a single character is that character's units.
pub proof fn lemma_utf16_encode_char(c: char)
    ensures
        utf16_encode(seq![c]) == char_utf16(c),
{
    assert(seq![c].drop_last() =~= Seq::<char>::empty());
    assert(seq![c].last() == c);
    assert(utf16_encode(seq![c].drop_last()) =~= Seq::<u16>::empty());
    assert(Seq::<u16>::empty() + char_utf16(c) =~= char_utf16(c));
}

/// How units decode, one step at a time: a unit that is no surrogate is the character
/// with its value; a high surrogate followed by a low one is the character of value
/// 0x10000 + (high - 0xD800) * 0x400 + (low - 0xDC00); any other surrogate is an error
/// carrying that unit. Decoding then goes on with what follows.
pub proof fn lemma_utf16_decode_step(u: u16, v: u16, rest: Seq<u16>)
    ensures
        !(0xD800 <= u <= 0xDFFF) ==> ({
            let d = utf16_decode(seq![u] + rest);
            &&& d.len() >= 1
            &&& d[0] is Ok
            &&& d[0]->Ok_0 as int == u as int
            &&& d.skip(1) == utf16_decode(rest)
        }),
        0xD800 <= u <= 0xDBFF && 0xDC00 <= v <= 0xDFFF ==> ({
            let d = utf16_decode(seq![u, v] + rest);
            &&& d.len() >= 1
            &&& d[0] is Ok
            &&& d[0]->Ok_0 as int == 0x10000 + (u - 0xD800) * 0x400 + (v - 0xDC00)
            &&& d.skip(1) == utf16_decode(rest)
        }),
        0xDC00 <= u <= 0xDFFF ==> ({
            let d = utf16_decode(seq![u] + rest);
            d.len() >= 1 && d[0] == Err::<char, u16>(u) && d.skip(1) == utf16_decode(rest)
        }),
        0xD800 <= u <= 0xDBFF && !(0xDC00 <= v <= 0xDFFF) ==> ({
            let d = utf16_decode(seq![u, v] + rest);
            d.len() >= 1 && d[0] == Err::<char, u16>(u) && d.skip(1) == utf16_decode(seq![v] + rest)
        }),
{
    let s1 = seq![u] + rest;
    let s2 = seq![u, v] + rest;
    assert(s1.skip(1) =~= rest);
    assert(s2.skip(2) =~= rest);
    assert(s2.skip(1) =~= seq![v] + rest);
    let d1 = utf16_decode(s1);
    let d2 = utf16_decode(s2);
    if !(0xD800 <= u <= 0xDFFF) {
        assert(d1.skip(1) =~= utf16_decode(rest));
    }
    if 0xDC00 <= u <= 0xDFFF {
        assert(d1.skip(1) =~= utf16_decode(rest));
    }
    if 0xD800 <= u <= 0xDBFF && 0xDC00 <= v <= 0xDFFF {
        assert(d2.skip(1) =~= utf16_decode(rest));
    }
    if 0xD800 <= u <= 0xDBFF && !(0xDC00 <= v <= 0xDFFF) {
        assert(d2.skip(1) =~= utf16_decode(seq![v] + rest));
    }
}

/// Lossy decoding of an encoded text gives the text back.
pub proof fn lemma_utf16_lossy_round_trip(s: Seq<char>)
    ensures
        utf16_decode_lossy(utf16_encode(s)) == s,
{
    lemma_utf16_round_trip(s);
    lemma_lossy_agrees_with_strict(utf16_encode(s));
}

} // verus!
