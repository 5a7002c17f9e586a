//! Character-level text operations with the meaning that `str`'s methods
//! give them: whitespace, trimming, searching, splitting and replacing.

use crate::text_codec::string_from_utf8;
use vstd::prelude::*;
use vstd::utf8::*;

verus! {

broadcast use vstd::utf8::group_utf8_lib;

/// `char::is_whitespace`: the characters with the Unicode `White_Space`
/// property.
pub open spec fn is_ws(c: char) -> bool {
    let v = c as u32;
    ||| 0x09 <= v <= 0x0D
    ||| v == 0x20
    ||| v == 0x85
    ||| v == 0xA0
    ||| v == 0x1680
    ||| 0x2000 <= v <= 0x200A
    ||| v == 0x2028
    ||| v == 0x2029
    ||| v == 0x202F
    ||| v == 0x205F
    ||| v == 0x3000
}

pub fn char_is_ws(c: char) -> (b: bool)
    ensures
        b == is_ws(c),
{
    let v = c as u32;
    (0x09 <= v && v <= 0x0D) || v == 0x20 || v == 0x85 || v == 0xA0 || v == 0x1680 || (0x2000 <= v
        && v <= 0x200A) || v == 0x2028 || v == 0x2029 || v == 0x202F || v == 0x205F || v == 0x3000
}

/// The number of whitespace characters at the start of `s`.
pub open spec fn lead_ws(s: Seq<char>) -> nat
    decreases s.len(),
{
    if s.len() > 0 && is_ws(s[0]) {
        1 + lead_ws(s.drop_first())
    } else {
        0
    }
}

/// The number of whitespace characters at the end of `s`.
pub open spec fn trail_ws(s: Seq<char>) -> nat
    decreases s.len(),
{
    if s.len() > 0 && is_ws(s.last()) {
        1 + trail_ws(s.drop_last())
    } else {
        0
    }
}

/// `str::trim`: `s` without leading and trailing whitespace.
pub open spec fn trim(s: Seq<char>) -> Seq<char> {
    let a = s.skip(lead_ws(s) as int);
    a.take(a.len() - trail_ws(a))
}

pub proof fn lemma_lead_ws(s: Seq<char>)
    ensures
        lead_ws(s) <= s.len(),
        forall|i: int| 0 <= i < lead_ws(s) ==> is_ws(#[trigger] s[i]),
        lead_ws(s) < s.len() ==> !is_ws(s[lead_ws(s) as int]),
    decreases s.len(),
{
    if s.len() > 0 && is_ws(s[0]) {
        lemma_lead_ws(s.drop_first());
        assert forall|i: int| 0 <= i < lead_ws(s) implies is_ws(#[trigger] s[i]) by {
            if i > 0 {
                assert(s[i] == s.drop_first()[i - 1]);
            }
        }
    }
}

pub proof fn lemma_trail_ws(s: Seq<char>)
    ensures
        trail_ws(s) <= s.len(),
        forall|i: int| s.len() - trail_ws(s) <= i < s.len() ==> is_ws(#[trigger] s[i]),
        trail_ws(s) < s.len() ==> !is_ws(s[s.len() - trail_ws(s) - 1]),
    decreases s.len(),
{
    if s.len() > 0 && is_ws(s.last()) {
        lemma_trail_ws(s.drop_last());
        assert forall|i: int| s.len() - trail_ws(s) <= i < s.len() implies is_ws(#[trigger] s[i]) by {
            if i < s.len() - 1 {
                assert(s[i] == s.drop_last()[i]);
            }
        }
    }
}

/// The characters of `s`.
pub fn chars_of(s: &str) -> (v: Vec<char>)
    ensures
        v@ == s@,
{
    broadcast use vstd::string::axiom_spec_iter;

    let mut out: Vec<char> = Vec::new();
    for c in it: s.chars()
        invariant
            it.seq() == s@,
            out@ == it.seq().take(it.index()),
    {
        proof {
            assert(it.seq().take(it.index() + 1) =~= out@.push(c));
        }
        out.push(c);
    }
    assert(s@.take(s@.len() as int) =~= s@);
    out
}

pub proof fn lemma_encode_utf8_push(s: Seq<char>, c: char)
    ensures
        encode_utf8(s.push(c)) == encode_utf8(s) + encode_scalar(c as u32),
    decreases s.len(),
{
    if s.len() == 0 {
        assert(s.push(c).drop_first() =~= Seq::<char>::empty());
        assert(encode_utf8(s.push(c).drop_first()) =~= Seq::<u8>::empty());
        assert(encode_utf8(s.push(c)) =~= encode_scalar(c as u32));
    } else {
        assert(s.push(c).drop_first() =~= s.drop_first().push(c));
        lemma_encode_utf8_push(s.drop_first(), c);
        assert(encode_utf8(s.push(c)) =~= encode_utf8(s) + encode_scalar(c as u32));
    }
}

/// Appends the UTF-8 encoding of `c`.
fn push_utf8(out: &mut Vec<u8>, c: char)
    ensures
        final(out)@ == old(out)@ + encode_scalar(c as u32),
{
    let v = c as u32;
    proof {
        char_is_scalar(c);
    }
    if v <= 0x7F {
        out.push((v & 0x7F) as u8);
    } else if v <= 0x7FF {
        out.push(0xC0 | ((v >> 6) & 0x1F) as u8);
        out.push(0x80 | (v & 0x3F) as u8);
    } else if v <= 0xFFFF {
        out.push(0xE0 | ((v >> 12) & 0x0F) as u8);
        out.push(0x80 | ((v >> 6) & 0x3F) as u8);
        out.push(0x80 | (v & 0x3F) as u8);
    } else {
        out.push(0xF0 | ((v >> 18) & 0x7) as u8);
        out.push(0x80 | ((v >> 12) & 0x3F) as u8);
        out.push(0x80 | ((v >> 6) & 0x3F) as u8);
        out.push(0x80 | (v & 0x3F) as u8);
    }
    assert(final(out)@ =~= old(out)@ + encode_scalar(c as u32));
}

/// The string made of the characters `cs`.
pub fn string_of(cs: &[char]) -> (s: String)
    ensures
        s@ == cs@,
{
    let mut bytes: Vec<u8> = Vec::new();
    let n = cs.len();
    for i in 0..n
        invariant
            n == cs@.len(),
            bytes@ == encode_utf8(cs@.take(i as int)),
    {
        proof {
            assert(cs@.take(i + 1) =~= cs@.take(i as int).push(cs@[i as int]));
            lemma_encode_utf8_push(cs@.take(i as int), cs@[i as int]);
        }
        push_utf8(&mut bytes, cs[i]);
    }
    assert(cs@.take(n as int) =~= cs@);
    proof {
        encode_utf8_valid_utf8(cs@);
        encode_utf8_decode_utf8(cs@);
    }
    match string_from_utf8(bytes) {
        Some(s) => s,
        None => {
            proof {
                assert(false);
            }
            String::new()
        },
    }
}

/// The string `s` without leading and trailing whitespace, as characters.
pub fn trim_chars(s: &[char]) -> (t: Vec<char>)
    ensures
        t@ == trim(s@),
{
    proof {
        lemma_lead_ws(s@);
    }
    let n = s.len();
    let mut a: usize = 0;
    while a < n && char_is_ws(s[a])
        invariant
            n == s@.len(),
            a <= lead_ws(s@),
            forall|i: int| 0 <= i < lead_ws(s@) ==> is_ws(#[trigger] s@[i]),
            lead_ws(s@) < s@.len() ==> !is_ws(s@[lead_ws(s@) as int]),
            lead_ws(s@) <= s@.len(),
        decreases n - a,
    {
        a = a + 1;
    }
    assert(a == lead_ws(s@));
    let ghost rest = s@.skip(a as int);
    proof {
        lemma_trail_ws(rest);
    }
    let mut b: usize = n;
    while b > a && char_is_ws(s[b - 1])
        invariant
            n == s@.len(),
            a <= b <= n,
            rest == s@.skip(a as int),
            b - a >= rest.len() - trail_ws(rest),
            forall|i: int| rest.len() - trail_ws(rest) <= i < rest.len() ==> is_ws(#[trigger] rest[i]),
            trail_ws(rest) < rest.len() ==> !is_ws(rest[rest.len() - trail_ws(rest) - 1]),
            trail_ws(rest) <= rest.len(),
        decreases b,
    {
        assert(s@[b - 1] == rest[b - 1 - a]);
        b = b - 1;
    }
    if b > a {
        assert(s@[b - 1] == rest[b - 1 - a]);
    }
    assert(b - a == rest.len() - trail_ws(rest));
    let t = slice_chars(s, a, b);
    assert(t@ =~= trim(s@));
    t
}

/// The characters `s[from..to]`.
pub fn slice_chars(s: &[char], from: usize, to: usize) -> (t: Vec<char>)
    requires
        from <= to <= s@.len(),
    ensures
        t@ == s@.subrange(from as int, to as int),
{
    let mut out: Vec<char> = Vec::new();
    let mut i = from;
    while i < to
        invariant
            from <= i <= to <= s@.len(),
            out@ == s@.subrange(from as int, i as int),
        decreases to - i,
    {
        assert(s@.subrange(from as int, i + 1) =~= out@.push(s@[i as int]));
        out.push(s[i]);
        i = i + 1;
    }
    out
}

/// The index of the first `c` in `s`, if there is one.
pub open spec fn find(s: Seq<char>, c: char) -> Option<int> {
    if exists|i: int| 0 <= i < s.len() && s[i] == c {
        Some(choose|i: int| 0 <= i < s.len() && s[i] == c && forall|j: int| 0 <= j < i ==> s[j] != c)
    } else {
        None
    }
}

/// `str::split_once` on a character: the parts before and after its first
/// occurrence.
pub open spec fn split_once(s: Seq<char>, c: char) -> Option<(Seq<char>, Seq<char>)> {
    match find(s, c) {
        Some(i) => Some((s.take(i), s.skip(i + 1))),
        None => None,
    }
}

/// `str::starts_with`.
pub open spec fn starts_with(s: Seq<char>, p: Seq<char>) -> bool {
    p.len() <= s.len() && s.take(p.len() as int) == p
}

/// `str::ends_with`.
pub open spec fn ends_with(s: Seq<char>, p: Seq<char>) -> bool {
    p.len() <= s.len() && s.skip(s.len() - p.len()) == p
}

/// The index of the first `c` in `s`.
pub fn find_char(s: &[char], c: char) -> (r: Option<usize>)
    ensures
        r matches Some(i) ==> find(s@, c) == Some(i as int) && i < s@.len(),
        r is None ==> find(s@, c) is None,
{
    let n = s.len();
    for i in 0..n
        invariant
            n == s@.len(),
            forall|j: int| 0 <= j < i ==> s@[j] != c,
    {
        if s[i] == c {
            let ghost k = choose|k: int| 0 <= k < s@.len() && s@[k] == c && forall|j: int| 0 <= j < k ==> s@[j] != c;
            assert(0 <= i < s@.len() && s@[i as int] == c && forall|j: int| 0 <= j < i ==> s@[j] != c);
            assert(k == i) by {
                if k < i {
                } else if k > i {
                    assert(s@[i as int] != c);
                }
            }
            return Some(i);
        }
    }
    None
}

/// The parts of `s` before and after the first `c`.
pub fn split_once_chars(s: &[char], c: char) -> (r: Option<(Vec<char>, Vec<char>)>)
    ensures
        r matches Some((a, b)) ==> split_once(s@, c) == Some((a@, b@)),
        r is None ==> split_once(s@, c) is None,
{
    match find_char(s, c) {
        Some(i) => {
            assert(i < s.len());
            let a = slice_chars(s, 0, i);
            let b = slice_chars(s, i + 1, s.len());
            assert(a@ =~= s@.take(i as int));
            assert(b@ =~= s@.skip(i + 1));
            Some((a, b))
        },
        None => None,
    }
}

/// Whether `s` starts with the characters of `p`.
pub fn starts_with_str(s: &[char], p: &str) -> (b: bool)
    ensures
        b == starts_with(s@, p@),
{
    let pc = chars_of(p);
    if pc.len() > s.len() {
        return false;
    }
    let n = pc.len();
    for i in 0..n
        invariant
            n == pc@.len(),
            n <= s@.len(),
            pc@ == p@,
            forall|j: int| 0 <= j < i ==> s@[j] == pc@[j],
    {
        if s[i] != pc[i] {
            assert(s@.take(n as int)[i as int] != p@[i as int]);
            return false;
        }
    }
    assert(s@.take(n as int) =~= p@);
    true
}

/// Whether `s` ends with the character `c`.
pub fn ends_with_char(s: &[char], c: char) -> (b: bool)
    ensures
        b == ends_with(s@, seq![c]),
{
    if s.len() == 0 {
        false
    } else {
        let r = s[s.len() - 1] == c;
        assert(r ==> s@.skip(s@.len() - 1) =~= seq![c]);
        assert(s@.skip(s@.len() - 1)[0] == s@[s@.len() - 1]);
        r
    }
}

/// Whether `s` starts with the character `c`.
pub fn starts_with_char(s: &[char], c: char) -> (b: bool)
    ensures
        b == starts_with(s@, seq![c]),
{
    if s.len() == 0 {
        false
    } else {
        let r = s[0] == c;
        assert(r ==> s@.take(1) =~= seq![c]);
        assert(s@.take(1)[0] == s@[0]);
        r
    }
}

/// The number of non-whitespace characters at the start of `s`.
pub open spec fn word_len(s: Seq<char>) -> nat
    decreases s.len(),
{
    if s.len() > 0 && !is_ws(s[0]) {
        1 + word_len(s.drop_first())
    } else {
        0
    }
}

/// `str::split_whitespace`: the maximal runs of non-whitespace characters.
pub open spec fn words(s: Seq<char>) -> Seq<Seq<char>>
    decreases s.len(),
{
    if s.len() == 0 {
        seq![]
    } else if is_ws(s[0]) {
        words(s.drop_first())
    } else {
        let n = word_len(s);
        if 0 < n <= s.len() {
            seq![s.take(n as int)] + words(s.skip(n as int))
        } else {
            seq![]
        }
    }
}

proof fn lemma_word_len(s: Seq<char>)
    ensures
        word_len(s) <= s.len(),
        s.len() > 0 && !is_ws(s[0]) ==> word_len(s) > 0,
        forall|i: int| 0 <= i < word_len(s) ==> !is_ws(#[trigger] s[i]),
        word_len(s) < s.len() ==> is_ws(s[word_len(s) as int]),
    decreases s.len(),
{
    if s.len() > 0 && !is_ws(s[0]) {
        lemma_word_len(s.drop_first());
        assert forall|i: int| 0 <= i < word_len(s) implies !is_ws(#[trigger] s[i]) by {
            if i > 0 {
                assert(s[i] == s.drop_first()[i - 1]);
            }
        }
    }
}

/// The whitespace-separated words of `s`.
pub fn words_of(s: &[char]) -> (w: Vec<Vec<char>>)
    ensures
        w@.len() == words(s@).len(),
        forall|i: int| 0 <= i < w@.len() ==> (#[trigger] w@[i])@ == words(s@)[i],
{
    let mut out: Vec<Vec<char>> = Vec::new();
    let n = s.len();
    let mut i: usize = 0;
    assert(s@.skip(0) =~= s@);
    assert(Seq::new(out@.len(), |k: int| out@[k]@) + words(s@) =~= words(s@));
    while i < n
        invariant
            n == s@.len(),
            i <= n,
            words(s@) == Seq::new(out@.len(), |k: int| out@[k]@) + words(s@.skip(i as int)),
        decreases n - i,
    {
        let ghost rest = s@.skip(i as int);
        if char_is_ws(s[i]) {
            assert(rest.drop_first() =~= s@.skip(i + 1));
            i = i + 1;
        } else {
            proof {
                lemma_word_len(rest);
            }
            let mut j = i;
            while j < n && !char_is_ws(s[j])
                invariant
                    i <= j <= n,
                    n == s@.len(),
                    rest == s@.skip(i as int),
                    j - i <= word_len(rest),
                    forall|k: int| 0 <= k < word_len(rest) ==> !is_ws(#[trigger] rest[k]),
                    word_len(rest) < rest.len() ==> is_ws(rest[word_len(rest) as int]),
                    word_len(rest) <= rest.len(),
                decreases n - j,
            {
                assert(s@[j as int] == rest[j - i]);
                j = j + 1;
            }
            if j < n {
                assert(s@[j as int] == rest[j - i]);
            }
            assert(j - i == word_len(rest));
            let w = slice_chars(s, i, j);
            let ghost before = Seq::new(out@.len(), |k: int| out@[k]@);
            assert(w@ =~= rest.take(word_len(rest) as int));
            assert(rest.skip(word_len(rest) as int) =~= s@.skip(j as int));
            out.push(w);
            assert(Seq::new(out@.len(), |k: int| out@[k]@) =~= before.push(w@));
            assert(before.push(w@) + words(s@.skip(j as int)) =~= before + (seq![w@] + words(s@.skip(j as int))));
            i = j;
        }
    }
    assert(s@.skip(n as int) =~= Seq::<char>::empty());
    assert(words(s@) =~= Seq::new(out@.len(), |k: int| out@[k]@));
    out
}

/// `str::replace`: every non-overlapping occurrence of `pat`, from the left,
/// replaced by `rep`.
pub open spec fn replace(s: Seq<char>, pat: Seq<char>, rep: Seq<char>) -> Seq<char>
    decreases s.len(),
{
    if pat.len() == 0 || s.len() < pat.len() {
        s
    } else if s.take(pat.len() as int) == pat {
        rep + replace(s.skip(pat.len() as int), pat, rep)
    } else {
        seq![s[0]] + replace(s.drop_first(), pat, rep)
    }
}

/// Whether `s` holds `p` at position `i`.
fn matches_at(s: &[char], i: usize, p: &Vec<char>) -> (b: bool)
    requires
        i + p@.len() <= s@.len(),
    ensures
        b == (s@.subrange(i as int, i + p@.len()) == p@),
{
    let m = p.len();
    let n = s.len();
    for k in 0..m
        invariant
            m == p@.len(),
            n == s@.len(),
            i + m <= n,
            forall|t: int| 0 <= t < k ==> s@[i + t] == p@[t],
    {
        if s[i + k] != p[k] {
            assert(s@.subrange(i as int, i + m)[k as int] != p@[k as int]);
            return false;
        }
    }
    assert(s@.subrange(i as int, i + m) =~= p@);
    true
}

/// `s` with every occurrence of `pat` replaced by `rep`.
pub fn replace_chars(s: &[char], pat: &str, rep: &str) -> (r: Vec<char>)
    requires
        pat@.len() > 0,
    ensures
        r@ == replace(s@, pat@, rep@),
{
    let pc = chars_of(pat);
    let rc = chars_of(rep);
    let m = pc.len();
    let n = s.len();
    let mut out: Vec<char> = Vec::new();
    let mut i: usize = 0;
    assert(s@.skip(0) =~= s@);
    assert(out@ + replace(s@, pat@, rep@) =~= replace(s@, pat@, rep@));
    while i < n
        invariant
            n == s@.len(),
            i <= n,
            m == pc@.len(),
            m > 0,
            pc@ == pat@,
            rc@ == rep@,
            replace(s@, pat@, rep@) == out@ + replace(s@.skip(i as int), pat@, rep@),
        decreases n - i,
    {
        let ghost rest = s@.skip(i as int);
        let matched = n - i >= m && matches_at(s, i, &pc);
        if n - i >= m {
            assert(rest.take(m as int) =~= s@.subrange(i as int, i + m));
        }
        if matched {
            let mut t: usize = 0;
            let ghost before = out@;
            while t < rc.len()
                invariant
                    t <= rc@.len(),
                    out@ == before + rc@.take(t as int),
                decreases rc@.len() - t,
            {
                assert(rc@.take(t + 1) =~= rc@.take(t as int).push(rc@[t as int]));
                out.push(rc[t]);
                t = t + 1;
            }
            assert(rc@.take(rc@.len() as int) =~= rc@);
            assert(rest.skip(m as int) =~= s@.skip(i + m));
            assert(before + (rep@ + replace(s@.skip(i + m), pat@, rep@)) =~= out@ + replace(s@.skip(i + m), pat@, rep@));
            i = i + m;
        } else {
            let ghost before = out@;
            out.push(s[i]);
            assert(rest.drop_first() =~= s@.skip(i + 1));
            assert(rest[0] == s@[i as int]);
            assert(before + (seq![s@[i as int]] + replace(s@.skip(i + 1), pat@, rep@)) =~= out@ + replace(s@.skip(i + 1), pat@, rep@));
            i = i + 1;
        }
    }
    assert(s@.skip(n as int) =~= Seq::<char>::empty());
    assert(out@ + Seq::<char>::empty() =~= out@);
    out
}

/// `s` with each tab written as two spaces.
pub open spec fn expand_tabs(s: Seq<char>) -> Seq<char>
    decreases s.len(),
{
    if s.len() == 0 {
        seq![]
    } else if s[0] == '\t' {
        seq![' ', ' '] + expand_tabs(s.drop_first())
    } else {
        seq![s[0]] + expand_tabs(s.drop_first())
    }
}

/// Whether a line is indented by at least `spaces` columns, tabs counting
/// two: its first `spaces` characters, with tabs expanded, are spaces.
pub open spec fn indented(line: Seq<char>, spaces: nat) -> bool {
    let e = expand_tabs(line);
    forall|i: int| 0 <= i < spaces && i < e.len() ==> e[i] == ' '
}

} // verus!
