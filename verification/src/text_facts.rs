//! Facts about the character-level operations that reading text relies on:
//! searching, trimming, splitting into lines and words, and reading numbers
//! back from their digits.

use crate::chars::{
    expand_tabs, find, is_ws, replace, lead_ws, lemma_lead_ws, lemma_trail_ws, split_once, starts_with, trail_ws, trim,
    word_len, words,
};
use crate::numtext::{
    dec, digit_char, digit_value, digits_value, hex, parse_signed, parse_unsigned, radix_text,
    signed_dec,
};
use crate::text_parse::lines;
use vstd::prelude::*;

verus! {

/// The first `c` in `s` is at `k`.
pub proof fn lemma_find_at(s: Seq<char>, c: char, k: int)
    requires
        0 <= k < s.len(),
        s[k] == c,
        forall|j: int| 0 <= j < k ==> s[j] != c,
    ensures
        find(s, c) == Some(k),
{
    let i = choose|i: int| 0 <= i < s.len() && s[i] == c && forall|j: int| 0 <= j < i ==> s[j] != c;
    assert(0 <= k < s.len() && s[k] == c && forall|j: int| 0 <= j < k ==> s[j] != c);
    if i < k {
        assert(s[i] != c);
    } else if i > k {
        assert(s[k] != c);
    }
}

/// Where `s` has a `c`, `find` gives the first one.
pub proof fn lemma_find_some(s: Seq<char>, c: char, k: int)
    requires
        0 <= k < s.len(),
        s[k] == c,
    ensures
        find(s, c) matches Some(i) && 0 <= i <= k && s[i] == c && forall|j: int| 0 <= j < i ==> s[j] != c,
    decreases k,
{
    if exists|j: int| 0 <= j < k && s[j] == c {
        let j = choose|j: int| 0 <= j < k && s[j] == c;
        lemma_find_some(s, c, j);
    } else {
        lemma_find_at(s, c, k);
    }
}

/// `s` has no `c`.
pub proof fn lemma_find_none(s: Seq<char>, c: char)
    requires
        forall|j: int| 0 <= j < s.len() ==> s[j] != c,
    ensures
        find(s, c) is None,
{
}

/// Splitting `a + [c] + b` at its first `c`, where `a` holds none.
pub proof fn lemma_split_at(a: Seq<char>, c: char, b: Seq<char>)
    requires
        forall|j: int| 0 <= j < a.len() ==> a[j] != c,
    ensures
        split_once(a + seq![c] + b, c) == Some((a, b)),
{
    let s = a + seq![c] + b;
    assert forall|j: int| 0 <= j < a.len() implies s[j] != c by {
        assert(s[j] == a[j]);
    }
    lemma_find_at(s, c, a.len() as int);
    assert(s.take(a.len() as int) =~= a);
    assert(s.skip(a.len() as int + 1) =~= b);
}

/// No character of `s` is whitespace.
pub open spec fn no_ws(s: Seq<char>) -> bool {
    forall|i: int| 0 <= i < s.len() ==> !is_ws(#[trigger] s[i])
}

/// Every character of `s` is whitespace.
pub open spec fn all_ws(s: Seq<char>) -> bool {
    forall|i: int| 0 <= i < s.len() ==> is_ws(#[trigger] s[i])
}

/// `s` neither starts nor ends with whitespace.
pub open spec fn is_trimmed(s: Seq<char>) -> bool {
    s.len() == 0 || (!is_ws(s[0]) && !is_ws(s.last()))
}

proof fn lemma_lead_ws_prefix(pre: Seq<char>, rest: Seq<char>)
    requires
        all_ws(pre),
    ensures
        lead_ws(pre + rest) == pre.len() + lead_ws(rest),
    decreases pre.len(),
{
    if pre.len() > 0 {
        let s = pre + rest;
        assert(is_ws(pre[0]));
        assert(s.drop_first() =~= pre.drop_first() + rest);
        assert(all_ws(pre.drop_first())) by {
            assert forall|i: int| 0 <= i < pre.drop_first().len() implies is_ws(#[trigger] pre.drop_first()[i]) by {
                assert(pre.drop_first()[i] == pre[i + 1]);
            }
        }
        lemma_lead_ws_prefix(pre.drop_first(), rest);
    } else {
        assert(pre + rest =~= rest);
    }
}

proof fn lemma_trail_ws_suffix(rest: Seq<char>, post: Seq<char>)
    requires
        all_ws(post),
    ensures
        trail_ws(rest + post) == post.len() + trail_ws(rest),
    decreases post.len(),
{
    if post.len() > 0 {
        let s = rest + post;
        assert(is_ws(post.last()));
        assert(s.drop_last() =~= rest + post.drop_last());
        assert(all_ws(post.drop_last())) by {
            assert forall|i: int| 0 <= i < post.drop_last().len() implies is_ws(#[trigger] post.drop_last()[i]) by {
                assert(post.drop_last()[i] == post[i]);
            }
        }
        lemma_trail_ws_suffix(rest, post.drop_last());
    } else {
        assert(rest + post =~= rest);
    }
}

/// Trimming `pre + s + post`, where `pre` and `post` are whitespace and `s`
/// is trimmed, gives `s`.
pub proof fn lemma_trim_pad(pre: Seq<char>, s: Seq<char>, post: Seq<char>)
    requires
        all_ws(pre),
        all_ws(post),
        is_trimmed(s),
    ensures
        trim(pre + s + post) == s,
{
    let t = pre + s + post;
    if s.len() == 0 {
        assert(t =~= pre + post);
        assert(all_ws(pre + post)) by {
            assert forall|i: int| 0 <= i < (pre + post).len() implies is_ws(#[trigger] (pre + post)[i]) by {
                if i < pre.len() {
                    assert((pre + post)[i] == pre[i]);
                } else {
                    assert((pre + post)[i] == post[i - pre.len()]);
                }
            }
        }
        lemma_lead_ws_prefix(pre + post, Seq::<char>::empty());
        assert(pre + post + Seq::<char>::empty() =~= pre + post);
        assert(t.skip(t.len() as int) =~= Seq::<char>::empty());
    } else {
        lemma_lead_ws_prefix(pre, s + post);
        assert(t =~= pre + (s + post));
        assert(lead_ws(s + post) == 0) by {
            assert((s + post)[0] == s[0]);
        }
        let a = t.skip(pre.len() as int);
        assert(a =~= s + post);
        lemma_trail_ws_suffix(s, post);
        assert(trail_ws(s) == 0) by {
            assert(s.last() == s[s.len() - 1]);
        }
        assert(a.take(a.len() - post.len()) =~= s);
    }
}

/// A well-formed line: it ends with its only line break.
pub open spec fn is_line(l: Seq<char>) -> bool {
    &&& l.len() > 0
    &&& l.last() == '\n'
    &&& forall|i: int| 0 <= i < l.len() - 1 ==> l[i] != '\n'
}

/// The lines concatenated.
pub open spec fn join(ls: Seq<Seq<char>>) -> Seq<char>
    decreases ls.len(),
{
    if ls.len() == 0 {
        seq![]
    } else {
        ls[0] + join(ls.drop_first())
    }
}

/// Splitting well-formed lines, concatenated, gives them back.
pub proof fn lemma_lines_join(ls: Seq<Seq<char>>)
    requires
        forall|i: int| 0 <= i < ls.len() ==> is_line(#[trigger] ls[i]),
    ensures
        lines(join(ls)) == ls,
    decreases ls.len(),
{
    if ls.len() > 0 {
        let l = ls[0];
        let rest = ls.drop_first();
        assert forall|i: int| 0 <= i < rest.len() implies is_line(#[trigger] rest[i]) by {
            assert(rest[i] == ls[i + 1]);
        }
        lemma_lines_join(rest);
        let t = join(ls);
        assert(is_line(l));
        assert(t == l + join(rest));
        assert forall|j: int| 0 <= j < l.len() - 1 implies t[j] != '\n' by {
            assert(t[j] == l[j]);
        }
        assert(t[l.len() - 1] == '\n');
        lemma_find_at(t, '\n', l.len() - 1);
        assert(t.take(l.len() as int) =~= l);
        assert(t.skip(l.len() as int) =~= join(rest));
        assert(lines(t) == seq![l] + lines(join(rest)));
        assert(seq![l] + rest =~= ls);
    }
}

/// `join` of two line lists is the concatenation of their joins.
pub proof fn lemma_join_concat(a: Seq<Seq<char>>, b: Seq<Seq<char>>)
    ensures
        join(a + b) == join(a) + join(b),
    decreases a.len(),
{
    if a.len() == 0 {
        assert(a + b =~= b);
        assert(join(a) + join(b) =~= join(b));
    } else {
        assert((a + b).drop_first() =~= a.drop_first() + b);
        lemma_join_concat(a.drop_first(), b);
        assert(join(a + b) =~= join(a) + join(b));
    }
}

proof fn lemma_digit(d: nat, r: nat)
    requires
        d < r <= 16,
    ensures
        digit_value(digit_char(d), r) == Some(d),
        !is_ws(digit_char(d)),
        digit_char(d) != '+' && digit_char(d) != '-' && digit_char(d) != ':' && digit_char(d) != ']'
            && digit_char(d) != '\n',
{
}

/// The digits of `n` in base `r` read back as `n`.
pub proof fn lemma_radix_value(n: nat, r: nat)
    requires
        2 <= r <= 16,
    ensures
        digits_value(radix_text(n, r), r) == Some(n),
        radix_text(n, r).len() > 0,
        radix_text(n, r)[0] != '+' && radix_text(n, r)[0] != '-',
        forall|i: int|
            0 <= i < radix_text(n, r).len() ==> !is_ws(#[trigger] radix_text(n, r)[i]) && radix_text(n, r)[i]
                != ':' && radix_text(n, r)[i] != ']' && radix_text(n, r)[i] != '\n' && radix_text(n, r)[i]
                != '-' && radix_text(n, r)[i] != '[',
    decreases n,
{
    let t = radix_text(n, r);
    if n < r {
        assert(n % 36 == n);
        lemma_digit(n, r);
        assert(t.drop_last() =~= Seq::<char>::empty());
        assert(digits_value(t.drop_last(), r) == Some(0nat));
        assert(t.last() == digit_char(n));
        assert(0 * r + n == n);
    } else {
        assert(n / r < n) by (nonlinear_arith)
            requires
                r >= 2,
                n >= r,
        ;
        assert(n % r < r) by (nonlinear_arith)
            requires
                r >= 2,
        ;
        assert(n == (n / r) * r + n % r) by (nonlinear_arith)
            requires
                r >= 2,
        ;
        lemma_radix_value(n / r, r);
        lemma_digit(n % r, r);
        let h = radix_text(n / r, r);
        assert(t.drop_last() =~= h);
        assert(t.last() == digit_char(n % r));
        assert(digits_value(t, r) == Some(((n / r) * r + n % r) as nat));
        assert(t[0] == h[0]);
        assert forall|i: int| 0 <= i < t.len() implies !is_ws(#[trigger] t[i]) && t[i] != ':' && t[i] != ']'
            && t[i] != '\n' && t[i] != '-' && t[i] != '[' by {
            if i < h.len() {
                assert(t[i] == h[i]);
            }
        }
    }
}

/// `{}` of an unsigned integer reads back with `str::parse`.
pub proof fn lemma_parse_dec(n: nat, max: nat)
    requires
        n <= max,
    ensures
        parse_unsigned(dec(n), 10, max) == Some(n),
{
    lemma_radix_value(n, 10);
}

/// `{:x}` of an unsigned integer reads back with `from_str_radix(.., 16)`.
pub proof fn lemma_parse_hex(n: nat, max: nat)
    requires
        n <= max,
    ensures
        parse_unsigned(hex(n), 16, max) == Some(n),
{
    lemma_radix_value(n, 16);
}

/// `{}` of a signed integer reads back with `str::parse`.
pub proof fn lemma_parse_signed_dec(v: int, min: int, max: int)
    requires
        min <= v <= max,
        min < 0 <= max,
    ensures
        parse_signed(signed_dec(v), 10, min, max) == Some(v),
{
    if v < 0 {
        let d = dec((-v) as nat);
        lemma_radix_value((-v) as nat, 10);
        let s = signed_dec(v);
        assert(s.drop_first() =~= d);
    } else {
        lemma_radix_value(v as nat, 10);
    }
}

proof fn lemma_word_len(a: Seq<char>, rest: Seq<char>)
    requires
        no_ws(a),
        rest.len() == 0 || is_ws(rest[0]),
    ensures
        word_len(a + rest) == a.len(),
    decreases a.len(),
{
    if a.len() > 0 {
        assert((a + rest)[0] == a[0]);
        assert((a + rest).drop_first() =~= a.drop_first() + rest);
        assert(no_ws(a.drop_first())) by {
            assert forall|i: int| 0 <= i < a.drop_first().len() implies !is_ws(#[trigger] a.drop_first()[i]) by {
                assert(a.drop_first()[i] == a[i + 1]);
            }
        }
        lemma_word_len(a.drop_first(), rest);
    } else {
        assert(a + rest =~= rest);
    }
}

/// The words of a word followed by a space and more text.
pub proof fn lemma_words_cons(a: Seq<char>, rest: Seq<char>)
    requires
        a.len() > 0,
        no_ws(a),
    ensures
        words(a + seq![' '] + rest) == seq![a] + words(rest),
{
    let s = a + seq![' '] + rest;
    assert(s =~= a + (seq![' '] + rest));
    lemma_word_len(a, seq![' '] + rest);
    assert(s[0] == a[0]);
    assert(s.take(a.len() as int) =~= a);
    let t = s.skip(a.len() as int);
    assert(t =~= seq![' '] + rest);
    assert(is_ws(t[0]));
    assert(t.drop_first() =~= rest);
    assert(words(t) == words(rest));
    assert(!is_ws(a[0]));
    assert(!is_ws(s[0]));
    assert(words(s) == seq![s.take(a.len() as int)] + words(t));
}

/// The words of a single word.
pub proof fn lemma_words_single(a: Seq<char>)
    requires
        a.len() > 0,
        no_ws(a),
    ensures
        words(a) == seq![a],
{
    lemma_word_len(a, Seq::<char>::empty());
    assert(a + Seq::<char>::empty() =~= a);
    assert(a.take(a.len() as int) =~= a);
    assert(a.skip(a.len() as int) =~= Seq::<char>::empty());
    assert(!is_ws(a[0]));
    assert(words(a.skip(a.len() as int)) =~= Seq::<Seq<char>>::empty());
    assert(words(a) == seq![a.take(a.len() as int)] + words(a.skip(a.len() as int)));
    assert(seq![a] + Seq::<Seq<char>>::empty() =~= seq![a]);
}

/// No backslash in `s` is followed by `n`.
pub open spec fn no_escape(s: Seq<char>) -> bool {
    forall|i: int| 0 <= i < s.len() - 1 ==> !(#[trigger] s[i] == '\\' && s[i + 1] == 'n')
}

/// No `-` in `s` is followed by `>`.
pub open spec fn no_arrow(s: Seq<char>) -> bool {
    forall|i: int| 0 <= i < s.len() - 1 ==> !(#[trigger] s[i] == '-' && s[i + 1] == '>')
}

proof fn lemma_replace_keep(s: Seq<char>, pat: Seq<char>, rep: Seq<char>)
    requires
        pat.len() == 2,
        s.len() >= 1,
        s.len() < 2 || s.take(2) != pat,
    ensures
        replace(s, pat, rep) == seq![s[0]] + replace(s.drop_first(), pat, rep),
{
    if s.len() < 2 {
        assert(s.drop_first() =~= Seq::<char>::empty());
        assert(s =~= seq![s[0]]);
        assert(seq![s[0]] + Seq::<char>::empty() =~= s);
    }
}

/// Text with no `\` followed by `n` has no escape to read: unescaping
/// leaves it as it is.
pub proof fn lemma_unescape_plain(s: Seq<char>)
    requires
        no_escape(s),
    ensures
        crate::text_parse::unescape_newlines(s) == s,
    decreases s.len(),
{
    let bs = seq!['\\', 'n'];
    if s.len() >= 2 {
        assert(s.take(2) != bs) by {
            if s.take(2) == bs {
                assert(s.take(2)[0] == s[0] && s.take(2)[1] == s[1]);
            }
        }
        let rest = s.drop_first();
        assert(no_escape(rest)) by {
            assert forall|i: int| 0 <= i < rest.len() - 1 implies !(#[trigger] rest[i] == '\\' && rest[i + 1] == 'n') by {
                assert(rest[i] == s[i + 1]);
                assert(rest[i + 1] == s[i + 2]);
            }
        }
        lemma_unescape_plain(rest);
        lemma_replace_keep(s, bs, seq!['\n']);
        assert(seq![s[0]] + rest =~= s);
    }
}

/// Escaping line breaks as `\n` and reading the escapes back gives the
/// string, where it has no `\n` of its own.
pub proof fn lemma_unescape_escape(s: Seq<char>)
    requires
        no_escape(s),
    ensures
        crate::text_parse::unescape_newlines(crate::text_format::escape_newlines(s)) == s,
    decreases s.len(),
{
    let nl = seq!['\n'];
    let bs = seq!['\\', 'n'];
    if s.len() == 0 {
    } else {
        let rest = s.drop_first();
        assert(no_escape(rest)) by {
            assert forall|i: int| 0 <= i < rest.len() - 1 implies !(#[trigger] rest[i] == '\\' && rest[i + 1] == 'n') by {
                assert(rest[i] == s[i + 1]);
                assert(rest[i + 1] == s[i + 2]);
            }
        }
        lemma_unescape_escape(rest);
        let e = replace(rest, nl, bs);
        if s[0] == '\n' {
            assert(s.take(1) =~= nl);
            assert(replace(s, nl, bs) == bs + e);
            let t = bs + e;
            assert(t.take(2) =~= bs);
            assert(t.skip(2) =~= e);
            assert(replace(t, bs, nl) == nl + replace(e, bs, nl));
            assert(nl + rest =~= s);
        } else {
            assert(s.take(1) != nl) by {
                assert(s.take(1)[0] == s[0]);
            }
            assert(replace(s, nl, bs) == seq![s[0]] + e);
            let t = seq![s[0]] + e;
            assert(t.drop_first() =~= e);
            assert(t[0] == s[0]);
            if t.len() >= 2 {
                assert(t.take(2) != bs) by {
                    if s[0] == '\\' {
                        assert(rest.len() > 0);
                        assert(s[1] != 'n');
                        if rest[0] == '\n' {
                            assert(rest.take(1) =~= nl);
                            assert(e[0] == '\\');
                        } else {
                            assert(rest.take(1) != nl) by {
                                assert(rest.take(1)[0] == rest[0]);
                            }
                            assert(e[0] == rest[0]);
                        }
                        assert(t.take(2)[1] == e[0]);
                    } else {
                        assert(t.take(2)[0] == s[0]);
                    }
                }
            }
            lemma_replace_keep(t, bs, nl);
            assert(seq![s[0]] + rest =~= s);
        }
    }
}

/// Writing `::` as `->` and reading `->` back as `::` gives the string,
/// where it has no `->` of its own.
pub proof fn lemma_arrows_back(s: Seq<char>)
    requires
        no_arrow(s),
    ensures
        replace(replace(s, "::"@, "->"@), "->"@, "::"@) == s,
    decreases s.len(),
{
    reveal_strlit("::");
    reveal_strlit("->");
    let cc = "::"@;
    let ar = "->"@;
    assert(cc =~= seq![':', ':']);
    assert(ar =~= seq!['-', '>']);
    if s.len() < 2 {
        assert(replace(s, cc, ar) == s);
        assert(replace(s, ar, cc) == s);
    } else if s.take(2) == cc {
        let rest = s.skip(2);
        assert(no_arrow(rest)) by {
            assert forall|i: int| 0 <= i < rest.len() - 1 implies !(#[trigger] rest[i] == '-' && rest[i + 1] == '>') by {
                assert(rest[i] == s[i + 2]);
                assert(rest[i + 1] == s[i + 3]);
            }
        }
        lemma_arrows_back(rest);
        let f = replace(rest, cc, ar);
        let t = ar + f;
        assert(replace(s, cc, ar) == t);
        assert(t.take(2) =~= ar);
        assert(t.skip(2) =~= f);
        assert(cc + rest =~= s);
    } else {
        let rest = s.drop_first();
        assert(no_arrow(rest)) by {
            assert forall|i: int| 0 <= i < rest.len() - 1 implies !(#[trigger] rest[i] == '-' && rest[i + 1] == '>') by {
                assert(rest[i] == s[i + 1]);
                assert(rest[i + 1] == s[i + 2]);
            }
        }
        lemma_arrows_back(rest);
        let f = replace(rest, cc, ar);
        assert(replace(s, cc, ar) == seq![s[0]] + f);
        let t = seq![s[0]] + f;
        assert(t.drop_first() =~= f);
        assert(t[0] == s[0]);
        if t.len() >= 2 {
            assert(t.take(2) != ar) by {
                if s[0] == '-' {
                    assert(s[1] != '>');
                    if rest.len() >= 2 && rest.take(2) == cc {
                        assert(f.take(2) =~= ar) by {
                            assert(f == ar + replace(rest.skip(2), cc, ar));
                        }
                        assert(f[0] == '-');
                    } else {
                        lemma_replace_keep(rest, cc, ar);
                        assert(f[0] == rest[0]);
                    }
                    assert(t.take(2)[1] == f[0]);
                } else {
                    assert(t.take(2)[0] == s[0]);
                }
            }
        }
        lemma_replace_keep(t, ar, cc);
        assert(seq![s[0]] + rest =~= s);
    }
}

/// The number of spaces at the start of `l`.
pub open spec fn lead_spaces(l: Seq<char>) -> nat
    decreases l.len(),
{
    if l.len() > 0 && l[0] == ' ' {
        1 + lead_spaces(l.drop_first())
    } else {
        0
    }
}

/// After its leading spaces, `l` has a character that is not whitespace.
pub open spec fn clean(l: Seq<char>) -> bool {
    lead_spaces(l) < l.len() && !is_ws(l[lead_spaces(l) as int])
}

proof fn lemma_lead_spaces_facts(l: Seq<char>)
    ensures
        lead_spaces(l) <= l.len(),
        forall|i: int| 0 <= i < lead_spaces(l) ==> l[i] == ' ',
    decreases l.len(),
{
    if l.len() > 0 && l[0] == ' ' {
        lemma_lead_spaces_facts(l.drop_first());
        assert forall|i: int| 0 <= i < lead_spaces(l) implies l[i] == ' ' by {
            if i > 0 {
                assert(l[i] == l.drop_first()[i - 1]);
            }
        }
    }
}

/// `n` spaces followed by text that starts with a non-whitespace character.
pub proof fn lemma_lead_spaces(n: nat, rest: Seq<char>)
    requires
        rest.len() > 0,
        !is_ws(rest[0]),
    ensures
        lead_spaces(crate::text_format::spaces(n) + rest) == n,
        clean(crate::text_format::spaces(n) + rest),
    decreases n,
{
    let l = crate::text_format::spaces(n) + rest;
    if n == 0 {
        assert(l =~= rest);
    } else {
        assert(l[0] == ' ');
        assert(l.drop_first() =~= crate::text_format::spaces((n - 1) as nat) + rest);
        lemma_lead_spaces((n - 1) as nat, rest);
    }
    assert(l[n as int] == rest[0]);
}

proof fn lemma_expand_prefix(l: Seq<char>, k: nat)
    requires
        k <= l.len(),
        forall|i: int| 0 <= i < k ==> l[i] == ' ',
    ensures
        expand_tabs(l) == crate::text_format::spaces(k) + expand_tabs(l.skip(k as int)),
    decreases k,
{
    if k == 0 {
        assert(l.skip(0) =~= l);
        assert(crate::text_format::spaces(0) + expand_tabs(l) =~= expand_tabs(l));
    } else {
        let t = l.drop_first();
        assert forall|i: int| 0 <= i < k - 1 implies t[i] == ' ' by {
            assert(t[i] == l[i + 1]);
        }
        lemma_expand_prefix(t, (k - 1) as nat);
        assert(t.skip(k - 1) =~= l.skip(k as int));
        assert(l[0] == ' ');
        assert(expand_tabs(l) == seq![' '] + expand_tabs(t));
        assert(seq![' '] + (crate::text_format::spaces((k - 1) as nat) + expand_tabs(l.skip(k as int)))
            =~= crate::text_format::spaces(k) + expand_tabs(l.skip(k as int)));
    }
}

/// A clean line is indented by `j` exactly when it has `j` leading spaces,
/// and it holds more than whitespace.
pub proof fn lemma_clean_line(l: Seq<char>, j: nat)
    requires
        clean(l),
    ensures
        crate::chars::indented(l, j) <==> j <= lead_spaces(l),
        trim(l).len() > 0,
        trim(l)[0] == l[lead_spaces(l) as int],
{
    let k = lead_spaces(l);
    lemma_lead_spaces_facts(l);
    lemma_expand_prefix(l, k);
    let rest = l.skip(k as int);
    assert(rest[0] == l[k as int]);
    assert(rest[0] != '\t');
    let e = expand_tabs(l);
    assert(expand_tabs(rest)[0] == rest[0]);
    assert(e[k as int] == rest[0]);
    assert(rest[0] != ' ');
    assert forall|i: int| 0 <= i < k implies e[i] == ' ' by {}
    lemma_lead_ws(l);
    assert(lead_ws(l) == k) by {
        lemma_lead_ws_prefix(crate::text_format::spaces(k), rest);
        assert(l =~= crate::text_format::spaces(k) + rest);
        assert(all_ws(crate::text_format::spaces(k)));
        assert(lead_ws(rest) == 0);
    }
    let a = l.skip(k as int);
    lemma_trail_ws(a);
    assert(trail_ws(a) < a.len()) by {
        if trail_ws(a) == a.len() {
            assert(is_ws(a[0]));
        }
    }
}

} // verus!
