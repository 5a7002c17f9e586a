//! Character encodings of names and string values: UTF-8 (through vstd's
//! model of it) and UTF-16, and equality of strings.

use vstd::prelude::*;
use vstd::utf8::*;

verus! {

broadcast use vstd::utf8::group_utf8_lib;

/// The UTF-16 code units of one character: one unit below `0x10000`, a
/// high/low surrogate pair above.
pub open spec fn char_utf16(c: char) -> Seq<u16> {
    let v = c as u32;
    if v < 0x10000 {
        seq![v as u16]
    } else {
        seq![(0xD800 + (v - 0x10000) / 0x400) as u16, (0xDC00 + (v - 0x10000) % 0x400) as u16]
    }
}

/// The UTF-16 encoding of a character sequence.
pub open spec fn encode_utf16(s: Seq<char>) -> Seq<u16>
    decreases s.len(),
{
    if s.len() == 0 {
        seq![]
    } else {
        encode_utf16(s.drop_last()) + char_utf16(s.last())
    }
}

/// The characters whose UTF-16 encoding is `units`, if there are any.
pub open spec fn decode_utf16(units: Seq<u16>) -> Option<Seq<char>> {
    if exists|s: Seq<char>| encode_utf16(s) == units {
        Some(choose|s: Seq<char>| encode_utf16(s) == units)
    } else {
        None
    }
}

/// The UTF-8 bytes of a character sequence.
pub open spec fn utf8_of(s: Seq<char>) -> Seq<u8> {
    encode_utf8(s)
}

proof fn lemma_char_utf16_shape(c: char)
    ensures
        ({
            let u = char_utf16(c);
            &&& 1 <= u.len() <= 2
            &&& u.len() == 1 ==> !(0xDC00 <= u[0] <= 0xDFFF) && u[0] as u32 == c as u32
            &&& u.len() == 2 ==> 0xDC00 <= u[1] <= 0xDFFF && 0xD800 <= u[0] <= 0xDBFF
                && c as u32 == 0x10000 + (u[0] - 0xD800) * 0x400 + (u[1] - 0xDC00)
        }),
{
    char_is_scalar(c);
    let v = c as u32;
    if v >= 0x10000 {
        let w = (v - 0x10000) as int;
        assert(0 <= w < 0x100000);
        assert(w == (w / 0x400) * 0x400 + w % 0x400) by (nonlinear_arith)
            requires 0 <= w;
        assert(w / 0x400 < 0x400) by (nonlinear_arith)
            requires 0 <= w < 0x100000;
    }
}

/// A character's code units end the encoding of any sequence ending in it.
proof fn lemma_last_unit_is_not_high(s: Seq<char>)
    requires
        s.len() > 0,
    ensures
        encode_utf16(s).len() > 0,
        !(0xD800 <= encode_utf16(s).last() <= 0xDBFF),
{
    lemma_char_utf16_shape(s.last());
    char_is_scalar(s.last());
}

/// Different character sequences have different UTF-16 encodings.
pub proof fn lemma_encode_utf16_injective(a: Seq<char>, b: Seq<char>)
    requires
        encode_utf16(a) == encode_utf16(b),
    ensures
        a == b,
    decreases a.len() + b.len(),
{
    if a.len() == 0 && b.len() == 0 {
        assert(a =~= b);
    } else if a.len() == 0 {
        lemma_last_unit_is_not_high(b);
    } else if b.len() == 0 {
        lemma_last_unit_is_not_high(a);
    } else {
        let ua = char_utf16(a.last());
        let ub = char_utf16(b.last());
        let e = encode_utf16(a);
        lemma_char_utf16_shape(a.last());
        lemma_char_utf16_shape(b.last());
        char_is_scalar(a.last());
        char_is_scalar(b.last());
        assert(e == encode_utf16(a.drop_last()) + ua);
        assert(e == encode_utf16(b.drop_last()) + ub);
        assert(e.last() == ua.last());
        assert(e.last() == ub.last());
        if ua.len() == 2 && ub.len() == 2 {
            assert(e[e.len() - 2] == ua[0]);
            assert(e[e.len() - 2] == ub[0]);
        }
        assert(ua.len() == ub.len());
        assert(a.last() as u32 == b.last() as u32);
        char_u32_cast(a.last(), a.last() as u32);
        char_u32_cast(b.last(), b.last() as u32);
        assert(ua == ub);
        assert(encode_utf16(a.drop_last()) =~= e.subrange(0, e.len() - ua.len()));
        assert(encode_utf16(b.drop_last()) =~= e.subrange(0, e.len() - ub.len()));
        lemma_encode_utf16_injective(a.drop_last(), b.drop_last());
        assert(a =~= a.drop_last().push(a.last()));
        assert(b =~= b.drop_last().push(b.last()));
    }
}

/// Decoding the UTF-16 encoding of a sequence gives the sequence back.
pub proof fn lemma_decode_encode_utf16(s: Seq<char>)
    ensures
        decode_utf16(encode_utf16(s)) == Some(s),
{
    let u = encode_utf16(s);
    assert(exists|t: Seq<char>| encode_utf16(t) == u);
    let t = choose|t: Seq<char>| encode_utf16(t) == u;
    lemma_encode_utf16_injective(t, s);
}

/// Two strings hold the same characters.
pub fn str_eq(a: &str, b: &str) -> (r: bool)
    ensures
        r == (a@ == b@),
{
    let x = a.as_bytes();
    let y = b.as_bytes();
    proof {
        encode_utf8_decode_utf8(a@);
        encode_utf8_decode_utf8(b@);
    }
    if x.len() != y.len() {
        return false;
    }
    let n = x.len();
    for i in 0..n
        invariant
            n == x@.len(),
            n == y@.len(),
            x@ == encode_utf8(a@),
            y@ == encode_utf8(b@),
            forall|j: int| 0 <= j < i ==> x@[j] == y@[j],
    {
        if x[i] != y[i] {
            assert(x@[i as int] != y@[i as int]);
            assert(x@ != y@);
            return false;
        }
    }
    assert(x@ =~= y@);
    true
}

/// The UTF-16 code units of `s`, as `str::encode_utf16` yields them.
pub fn utf16_units(s: &str) -> (u: Vec<u16>)
    ensures
        u@ == encode_utf16(s@),
{
    broadcast use vstd::string::axiom_spec_iter;

    let mut out: Vec<u16> = Vec::new();
    for c in it: s.chars()
        invariant
            it.seq() == s@,
            out@ == encode_utf16(it.seq().take(it.index())),
    {
        let ghost done = it.seq().take(it.index());
        let v = c as u32;
        proof {
            char_is_scalar(c);
        }
        if v < 0x10000 {
            out.push(v as u16);
        } else {
            out.push((0xD800 + (v - 0x10000) / 0x400) as u16);
            out.push((0xDC00 + (v - 0x10000) % 0x400) as u16);
        }
        proof {
            let next = it.seq().take(it.index() + 1);
            assert(next.drop_last() =~= done);
            assert(next.last() == c);
        }
    }
    assert(s@.take(s@.len() as int) =~= s@);
    out
}

/// `String::from_utf16`: std decodes `units` and fails exactly when no
/// character sequence has them as its UTF-16 encoding.
#[verifier::external_body]
pub(crate) fn string_from_utf16(units: &[u16]) -> (r: Option<String>)
    ensures
        r matches Some(s) ==> encode_utf16(s@) == units@,
        r is None ==> forall|t: Seq<char>| encode_utf16(t) != units@,
{
    String::from_utf16(units).ok()
}

/// `String::from_utf8`: std accepts exactly the valid UTF-8 sequences and
/// yields the characters they encode.
#[verifier::external_body]
pub(crate) fn string_from_utf8(bytes: Vec<u8>) -> (r: Option<String>)
    ensures
        r is Some <==> valid_utf8(bytes@),
        r matches Some(s) ==> s@ == decode_utf8(bytes@),
{
    String::from_utf8(bytes).ok()
}

/// Decodes UTF-16 units into a string.
pub fn decode_units(units: &[u16]) -> (r: Option<String>)
    ensures
        r matches Some(s) ==> decode_utf16(units@) == Some(s@),
        r is None ==> decode_utf16(units@) is None,
{
    let r = string_from_utf16(units);
    proof {
        if r is Some {
            lemma_decode_encode_utf16(r->0@);
        }
    }
    r
}

/// Decodes UTF-8 bytes into a string.
pub fn decode_bytes(bytes: Vec<u8>) -> (r: Option<String>)
    ensures
        r matches Some(s) ==> valid_utf8(bytes@) && s@ == decode_utf8(bytes@),
        r is None <==> !valid_utf8(bytes@),
{
    string_from_utf8(bytes)
}

} // verus!
