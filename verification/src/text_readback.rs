//! Reading the lines that the text writer produces gives back the values
//! they were written from.

use crate::b64::{base64_decoded, base64_encoded, is_base64_char};
use crate::chars::{indented, is_ws, replace, split_once, starts_with, trim, words};
use crate::numtext::{dec, hex, signed_dec};
use crate::text_facts::{
    lemma_find_at, lemma_find_none, lemma_lines_join, all_ws, clean, is_line, is_trimmed, lead_spaces, lemma_arrows_back, lemma_clean_line,
    lemma_lead_spaces, lemma_parse_dec, lemma_parse_hex, lemma_parse_signed_dec, lemma_radix_value,
    lemma_split_at, lemma_trim_pad, lemma_words_cons, lemma_words_single, no_ws,
};
use crate::text_format::{data_text_ok, object_text_ok, prop_text_ok, spaces};
use crate::text_lines::{body_lines, flat, head, items_lines, lemma_object_flat, object_lines, key_chars, name_part, nl, prop_lines, props_lines};
use crate::text_parse::{
    array_items, from_char, is_entry, line_at, map_entries, map_key, name_and_index, next_line,
    array_fields, map_fields, parse_array, parse_map, parse_prop, parse_props, parse_schema, schema_fields,
    lines, parse_object_text, parse_value, scalar_value, struct_head, summary_from_text, until,
    TextError,
};
use crate::text_roundtrip::{
    b64_ok, b64s, blocks, data_rt, ends_at, entries, head_reads, key_rt, lacks, lemma_scalar_reads, lemma_starts,
    lemma_items_blocks, lemma_not_starts, lemma_ends_at_len, lemma_lines_at_bounds, lemma_lines_at_first, lemma_lines_at_whole, lemma_lines_at_index, lemma_lines_at_split, lemma_pairs_entries, lemma_tags, lines_at, meta_back, one_line, plain,
    prop_rt,
};
use crate::format::summary_bytes;
use crate::laws::{lemma_summary_roundtrip, summary_roundtrips, unpadded, unpadded_object};
use crate::text_format::object_text;
use crate::types::{
    kind_of, spec_type_name, DataModel, HeaderModel, MetadataModel, ObjectModel, PropertyKind, PropertyModel,
    SummaryModel,
};
use vstd::prelude::*;
use vstd::utf8::encode_utf8;

verus! {

/// A line of `n` spaces and text that starts with a non-whitespace
/// character: it is read where it stands, and is indented by `j` exactly
/// when `j` is at most `n`.
pub proof fn lemma_line(ls: Seq<Seq<char>>, q: int, n: nat, rest: Seq<char>)
    requires
        0 <= q < ls.len(),
        ls[q] == nl(spaces(n) + rest),
        rest.len() > 0,
        !is_ws(rest[0]),
    ensures
        next_line(ls, q) == q,
        line_at(ls, q) == ls[q],
        ls[q].len() > 0,
        clean(ls[q]),
        lead_spaces(ls[q]) == n,
        forall|j: nat| #[trigger] indented(ls[q], j) <==> j <= n,
        trim(ls[q]).len() > 0,
        trim(ls[q])[0] == rest[0],
{
    let l = ls[q];
    assert(l =~= spaces(n) + (rest + seq!['\n']));
    lemma_lead_spaces(n, rest + seq!['\n']);
    assert forall|j: nat| #[trigger] indented(ls[q], j) <==> j <= n by {
        lemma_clean_line(l, j);
    }
    lemma_clean_line(l, 0);
    assert(l[n as int] == rest[0]);
}

/// The line where a list ends is read where it stands and does not
/// continue the list.
pub proof fn lemma_end(ls: Seq<Seq<char>>, q: int, j: nat)
    requires
        ends_at(ls, q, j),
    ensures
        next_line(ls, q) == q,
        q < ls.len() ==> line_at(ls, q).len() > 0 && !indented(line_at(ls, q), j),
        q == ls.len() ==> line_at(ls, q).len() == 0,
{
    reveal(ends_at);
    if q < ls.len() {
        lemma_clean_line(ls[q], j);
    }
}

/// A list that ends before a line indented by less than `j` also ends
/// before one indented by less than a larger `k`.
pub proof fn lemma_ends_weaken(ls: Seq<Seq<char>>, q: int, j: nat, k: nat)
    requires
        ends_at(ls, q, j),
        j <= k,
    ensures
        ends_at(ls, q, k),
{
    reveal(ends_at);
}

/// A clean line with `n` leading spaces ends every list indented by more.
pub proof fn lemma_ends_at_line(ls: Seq<Seq<char>>, q: int, n: nat, j: nat)
    requires
        0 <= q < ls.len(),
        clean(ls[q]),
        lead_spaces(ls[q]) == n,
        n < j,
    ensures
        ends_at(ls, q, j),
{
    reveal(ends_at);
}

/// A map key written under its key type reads back.
pub proof fn lemma_key_back(fl: Seq<(Seq<char>, Option<u32>)>, k: DataModel, key_type: Seq<char>, r: spec_fn(u32) -> Seq<char>)
    requires
        key_rt(k, key_type, r, fl),
    ensures
        map_key(fl, key_chars(k, r), key_type) == Ok::<DataModel, TextError>(k),
{
    reveal(map_key);
    match k {
        DataModel::Int32(v) => {
            lemma_parse_signed_dec(v as int, -0x8000_0000, 0x7FFF_FFFF);
        },
        DataModel::UInt16(v) => {
            lemma_parse_dec(v as nat, 0xFFFF);
        },
        DataModel::Byte(v) => {
            lemma_parse_hex(v as nat, 0xFF);
        },
        DataModel::Enum(s) => {
            lemma_arrows_back(s);
        },
        _ => {},
    }
}


/// The literal pieces around a property's name.
pub proof fn lemma_lits()
    ensures
        ":"@ == seq![':'],
        ": "@ == seq![':', ' '],
        "["@ == seq!['['],
        "]: "@ == seq![']', ':', ' '],
        "- "@ == seq!['-', ' '],
{
    reveal_strlit(":");
    reveal_strlit(": ");
    reveal_strlit("[");
    reveal_strlit("]: ");
    reveal_strlit("- ");
}

/// The field lines of a map.
pub proof fn lemma_map_lits()
    ensures
        "key_type: "@ == "key_type"@ + seq![':', ' '],
        "val_type: "@ == "val_type"@ + seq![':', ' '],
        "map_data:"@ == "map_data"@ + seq![':'],
        field_name("key_type"@),
        field_name("val_type"@),
        field_name("map_data"@),
{
    reveal_strlit("key_type: ");
    reveal_strlit("val_type: ");
    reveal_strlit("map_data:");
    reveal_strlit("key_type");
    reveal_strlit("val_type");
    reveal_strlit("map_data");
    assert("key_type: "@ =~= "key_type"@ + seq![':', ' ']);
    assert("val_type: "@ =~= "val_type"@ + seq![':', ' ']);
    assert("map_data:"@ =~= "map_data"@ + seq![':']);
}

/// The field lines of an array.
pub proof fn lemma_array_lits()
    ensures
        "item_type: "@ == "item_type"@ + seq![':', ' '],
        "array_name: "@ == "array_name"@ + seq![':', ' '],
        "item_schema:"@ == "item_schema"@ + seq![':'],
        "items:"@ == "items"@ + seq![':'],
        field_name("item_type"@),
        field_name("array_name"@),
        field_name("item_schema"@),
        field_name("items"@),
{
    reveal_strlit("item_type: ");
    reveal_strlit("array_name: ");
    reveal_strlit("item_schema:");
    reveal_strlit("items:");
    reveal_strlit("item_type");
    reveal_strlit("array_name");
    reveal_strlit("item_schema");
    reveal_strlit("items");
    assert("item_type: "@ =~= "item_type"@ + seq![':', ' ']);
    assert("array_name: "@ =~= "array_name"@ + seq![':', ' ']);
    assert("item_schema:"@ =~= "item_schema"@ + seq![':']);
    assert("items:"@ =~= "items"@ + seq![':']);
}

/// The field lines of an item schema.
pub proof fn lemma_schema_lits()
    ensures
        "  name: "@ == seq![' ', ' '] + "name"@ + seq![':', ' '],
        "  type: "@ == seq![' ', ' '] + "type"@ + seq![':', ' '],
        field_name("name"@),
        field_name("type"@),
{
    reveal_strlit("  name: ");
    reveal_strlit("  type: ");
    reveal_strlit("name");
    reveal_strlit("type");
    assert("  name: "@ =~= seq![' ', ' '] + "name"@ + seq![':', ' ']);
    assert("  type: "@ =~= seq![' ', ' '] + "type"@ + seq![':', ' ']);
}

/// A field name as the writer writes it: a non-empty word without `:`.
pub open spec fn field_name(f: Seq<char>) -> bool {
    &&& f.len() > 0
    &&& no_ws(f)
    &&& lacks(f, ':')
    &&& one_line(f)
}

/// A line of `n` spaces and one line of text is a well-formed line.
pub proof fn lemma_is_line(n: nat, rest: Seq<char>)
    requires
        one_line(rest),
    ensures
        is_line(nl(spaces(n) + rest)),
{
    let l = nl(spaces(n) + rest);
    assert forall|i: int| 0 <= i < l.len() - 1 implies l[i] != '\n' by {
        if i >= n {
            assert(l[i] == rest[i - n]);
        }
    }
}

/// A field line, `n` spaces, a field name, a colon and the rest: it is read
/// where it stands and splits at that colon.
#[verifier::spinoff_prover]
#[verifier::rlimit(50)]

#[verifier::spinoff_prover]
#[verifier::rlimit(100)]
pub proof fn lemma_field(ls: Seq<Seq<char>>, q: int, n: nat, f: Seq<char>, x: Seq<char>)
    requires
        0 <= q < ls.len(),
        ls[q] == nl(spaces(n) + f + seq![':'] + x),
        field_name(f),
        one_line(x),
    ensures
        field_at(ls, q, n, spaces(n) + f, x + seq!['\n']),
        lines_ok(ls, q, q + 1),
        trim(spaces(n) + f) == f,
{
    let rest = f + seq![':'] + x;
    let a = spaces(n) + f;
    assert(ls[q] == nl(spaces(n) + rest)) by {
        assert(ls[q] =~= nl(spaces(n) + rest));
    }
    assert(one_line(rest)) by {
        assert forall|i: int| 0 <= i < rest.len() implies rest[i] != '\n' by {
            if i < f.len() {
                assert(rest[i] == f[i]);
            } else if i > f.len() {
                assert(rest[i] == x[i - f.len() - 1]);
            }
        }
    }
    assert(next_line(ls, q) == q && indented(ls[q], n)) by {
        assert(rest[0] == f[0]);
        lemma_line(ls, q, n, rest);
    }
    assert(lines_ok(ls, q, q + 1)) by {
        lemma_is_line(n, rest);
        reveal(lines_ok);
    }
    assert(split_once(ls[q], ':') == Some((a, x + seq!['\n']))) by {
        assert forall|j: int| 0 <= j < a.len() implies a[j] != ':' by {
            if j >= n {
                assert(a[j] == f[j - n]);
            }
        }
        lemma_split_at(a, ':', x + seq!['\n']);
        assert(ls[q] =~= a + seq![':'] + (x + seq!['\n']));
    }
    assert(trim(a) == f) by {
        assert(f.last() == f[f.len() - 1]);
        lemma_trim_pad(spaces(n), f, Seq::<char>::empty());
        assert(a + Seq::<char>::empty() =~= a);
    }
    assert(field_at(ls, q, n, a, x + seq!['\n'])) by {
        reveal(field_at);
    }
}

/// A value written after a colon and padding reads as the value.
pub proof fn lemma_value_trim(pre: Seq<char>, v: Seq<char>)
    requires
        all_ws(pre),
        is_trimmed(v),
    ensures
        trim(pre + v + seq!['\n']) == v,
{
    lemma_trim_pad(pre, v, seq!['\n']);
}


/// A property's name with its index, as written before the colon.
pub open spec fn name_left(h: HeaderModel) -> Seq<char> {
    if h.arr_index == 0 {
        h.name
    } else {
        h.name + seq!['['] + dec(h.arr_index as nat) + seq![']']
    }
}

/// A name the text form can carry: plain, without `:` or `[`.
pub open spec fn name_ok(name: Seq<char>) -> bool {
    plain(name) && lacks(name, ':') && lacks(name, '[')
}

/// The name and index before a property's colon read back.
#[verifier::rlimit(30)]
pub proof fn lemma_name_back(h: HeaderModel)
    requires
        name_ok(h.name),
    ensures
        name_part(h) == name_left(h) + seq![':', ' '],
        lacks(name_left(h), ':'),
        one_line(name_left(h)),
        is_trimmed(name_left(h)),
        name_left(h).len() > 0 ==> !is_ws(name_left(h)[0]),
        name_and_index(name_left(h)) == Ok::<(Seq<char>, usize), TextError>((h.name, h.arr_index)),
{
    lemma_lits();
    reveal(name_and_index);
    let name = h.name;
    let left = name_left(h);
    if h.arr_index == 0 {
        lemma_find_none(name, '[');
        assert(from_char(name, '[') =~= Seq::<char>::empty());
        lemma_find_none(name, '[');
    } else {
        let d = dec(h.arr_index as nat);
        lemma_radix_value(h.arr_index as nat, 10);
        lemma_parse_dec(h.arr_index as nat, usize::MAX as nat);
        assert(name_part(h) =~= left + seq![':', ' ']);
        assert forall|j: int| 0 <= j < left.len() implies left[j] != ':' && left[j] != '\n' by {
            if j < name.len() {
                assert(left[j] == name[j]);
            } else if name.len() < j < name.len() + 1 + d.len() {
                assert(left[j] == d[j - name.len() - 1]);
            }
        }
        assert(left.last() == ']');
        if name.len() > 0 {
            assert(left[0] == name[0]);
        }
        assert forall|j: int| 0 <= j < name.len() implies left[j] != '[' by {
            assert(left[j] == name[j]);
        }
        lemma_find_at(left, '[', name.len() as int);
        let rest = from_char(left, '[');
        assert(rest =~= seq!['['] + d + seq![']']);
        assert(rest.drop_first() =~= d + seq![']']);
        lemma_find_at(d + seq![']'], ']', d.len() as int);
        assert((d + seq![']']).take(d.len() as int) =~= d);
        assert(until(rest.drop_first(), ']') == d);
        assert(left.take(name.len() as int) =~= name);
        assert(until(left, '[') == name);
    }
}

/// A property's first line: read where it stands, split at the colon
/// after its name, whose name and index read back.
#[verifier::spinoff_prover]
#[verifier::rlimit(50)]
pub proof fn lemma_prop_line(ls: Seq<Seq<char>>, q: int, ind: nat, h: HeaderModel, hd: Seq<char>)
    requires
        0 <= q < ls.len(),
        ls[q] == nl(spaces(ind) + name_part(h) + hd),
        name_ok(h.name),
        one_line(hd),
    ensures
        next_line(ls, q) == q,
        line_at(ls, q) == ls[q],
        ls[q].len() > 0,
        clean(ls[q]),
        lead_spaces(ls[q]) == ind,
        forall|j: nat| #[trigger] indented(ls[q], j) <==> j <= ind,
        is_line(ls[q]),
        split_once(ls[q], ':') == Some((spaces(ind) + name_left(h), seq![' '] + hd + seq!['\n'])),
        trim(spaces(ind) + name_left(h)) == name_left(h),
        name_and_index(name_left(h)) == Ok::<(Seq<char>, usize), TextError>((h.name, h.arr_index)),
{
    lemma_name_back(h);
    let left = name_left(h);
    let rest = left + seq![':'] + (seq![' '] + hd);
    assert(ls[q] =~= nl(spaces(ind) + rest));
    if left.len() > 0 {
        assert(rest[0] == left[0]);
    } else {
        assert(rest[0] == ':');
    }
    lemma_line(ls, q, ind, rest);
    assert(one_line(rest)) by {
        assert forall|i: int| 0 <= i < rest.len() implies rest[i] != '\n' by {
            if i < left.len() {
                assert(rest[i] == left[i]);
            } else if i > left.len() + 1 {
                assert(rest[i] == hd[i - left.len() - 2]);
            }
        }
    }
    lemma_is_line(ind, rest);
    let a = spaces(ind) + left;
    assert forall|j: int| 0 <= j < a.len() implies a[j] != ':' by {
        if j >= ind {
            assert(a[j] == left[j - ind]);
        }
    }
    lemma_split_at(a, ':', seq![' '] + hd + seq!['\n']);
    assert(ls[q] =~= a + seq![':'] + (seq![' '] + hd + seq!['\n']));
    lemma_trim_pad(spaces(ind), left, Seq::<char>::empty());
    assert(a + Seq::<char>::empty() =~= a);
}


/// The base64 text of bytes is one word, empty exactly for no bytes.
pub proof fn lemma_b64_word(x: Seq<u8>)
    requires
        b64_ok(x),
    ensures
        no_ws(base64_encoded(x)),
        one_line(base64_encoded(x)),
        base64_encoded(x).len() > 0 <==> x.len() > 0,
{
    let t = base64_encoded(x);
    assert forall|i: int| 0 <= i < t.len() implies !is_ws(#[trigger] t[i]) && t[i] != '\n' by {
        assert(is_base64_char(t[i]));
    }
}

/// The words of a struct head `!struct x y`, after a colon and padding.
#[verifier::rlimit(40)]
pub proof fn lemma_struct_text(x: Seq<char>, y: Seq<char>, pre: Seq<char>)
    requires
        x.len() > 0,
        no_ws(x),
        no_ws(y),
        one_line(x),
        one_line(y),
        all_ws(pre),
    ensures
        ({
            let h = "!struct "@ + x + " "@ + y;
            let v = trim(pre + h + seq!['\n']);
            &&& one_line(h)
            &&& v.len() > 0
            &&& v[0] == '!'
            &&& starts_with(v, "!struct"@)
            &&& words(v) == (if y.len() == 0 {
                seq!["!struct"@, x]
            } else {
                seq!["!struct"@, x, y]
            })
        }),
{
    lemma_tags();
    let tag = "!struct"@;
    let h = "!struct "@ + x + " "@ + y;
    assert(no_ws(tag));
    assert(h =~= tag + seq![' '] + x + seq![' '] + y);
    lemma_words_single(x);
    lemma_words_cons(tag, x);
    if y.len() == 0 {
        let core = tag + seq![' '] + x;
        assert(pre + h + seq!['\n'] =~= pre + core + seq![' ', '\n']);
        assert(core.last() == x.last());
        lemma_trim_pad(pre, core, seq![' ', '\n']);
        lemma_starts(tag, seq![' '] + x);
        assert(tag + (seq![' '] + x) =~= core);
        assert(words(core) =~= seq![tag, x]);
    } else {
        lemma_words_single(y);
        lemma_words_cons(x, y);
        lemma_words_cons(tag, x + seq![' '] + y);
        assert(h =~= tag + seq![' '] + (x + seq![' '] + y));
        assert(h.last() == y.last());
        lemma_value_trim(pre, h);
        lemma_starts(tag, seq![' '] + x + seq![' '] + y);
        assert(tag + (seq![' '] + x + seq![' '] + y) =~= h);
        assert(words(h) =~= seq![tag, x, y]);
    }
    assert forall|i: int| 0 <= i < h.len() implies h[i] != '\n' by {
        if i < 7 {
            assert(h[i] == tag[i]);
        } else if 8 <= i < 8 + x.len() {
            assert(h[i] == x[i - 8]);
        } else if i > 8 + x.len() {
            assert(h[i] == y[i - 9 - x.len()]);
        }
    }
}

/// The head of a struct, after a colon and padding, reads back as its
/// metadata and raw bytes.
pub proof fn lemma_struct_head_back(
    d: DataModel,
    m: MetadataModel,
    r: spec_fn(u32) -> Seq<char>,
    fl: Seq<(Seq<char>, Option<u32>)>,
    pre: Seq<char>,
)
    requires
        d is Struct,
        data_rt(d, m, r, fl),
        b64s(d, m),
        all_ws(pre),
    ensures
        ({
            let v = trim(pre + head(d, m, r) + seq!['\n']);
            &&& v.len() == 0 || starts_with(v, "!struct"@)
            &&& struct_head(v) == Ok::<(MetadataModel, Seq<u8>), TextError>((meta_back(d, m), d->Struct_1))
        }),
        one_line(head(d, m, r)),
{
    reveal(struct_head);
    let raw = d->Struct_1;
    match m {
        MetadataModel::Struct(data) => {
            let x = base64_encoded(data);
            let y = base64_encoded(raw);
            lemma_b64_word(data);
            lemma_b64_word(raw);
            lemma_struct_text(x, y, pre);
            if raw.len() == 0 {
                assert(raw =~= Seq::<u8>::empty());
            }
        },
        _ => {
            assert(head(d, m, r).len() == 0);
            assert(pre + head(d, m, r) + seq!['\n'] =~= pre + Seq::<char>::empty() + seq!['\n']);
            lemma_trim_pad(pre, Seq::<char>::empty(), seq!['\n']);
            assert(raw =~= Seq::<u8>::empty());
        },
    }
}

/// A value that takes one line reads back from its head.
pub proof fn lemma_scalar_back(
    ls: Seq<Seq<char>>,
    fl: Seq<(Seq<char>, Option<u32>)>,
    d: DataModel,
    m: MetadataModel,
    r: spec_fn(u32) -> Seq<char>,
    pre: Seq<char>,
    pos: int,
    ind: nat,
)
    requires
        !(d is Array || d is Struct || d is MapEntries),
        data_rt(d, m, r, fl),
        crate::text_format::data_text_ok(d, m, ind),
        all_ws(pre),
    ensures
        parse_value(ls, fl, pre + head(d, m, r) + seq!['\n'], pos, ind) == Ok::<(DataModel, MetadataModel, int), TextError>(
            (d, meta_back(d, m), pos),
        ),
        one_line(head(d, m, r)),
        body_lines(d, m, ind, r).len() == 0,
{
    lemma_scalar_reads(fl, d, m, r, pos, ind);
    lemma_value_trim(pre, head(d, m, r));
}


/// The lines from `a` up to `b` are well-formed.
#[verifier::opaque]
pub open spec fn lines_ok(ls: Seq<Seq<char>>, a: int, b: int) -> bool {
    forall|i: int| a <= i < b ==> is_line(#[trigger] ls[i])
}

/// No lines are well-formed.
pub proof fn lemma_lines_ok_empty(ls: Seq<Seq<char>>, a: int)
    ensures
        lines_ok(ls, a, a),
{
    reveal(lines_ok);
}

/// One well-formed line.
pub proof fn lemma_lines_ok_one(ls: Seq<Seq<char>>, a: int)
    requires
        is_line(ls[a]),
    ensures
        lines_ok(ls, a, a + 1),
{
    reveal(lines_ok);
}

/// Two runs of well-formed lines, one after the other.
pub proof fn lemma_lines_ok_cat(ls: Seq<Seq<char>>, a: int, b: int, c: int)
    requires
        lines_ok(ls, a, b),
        lines_ok(ls, b, c),
    ensures
        lines_ok(ls, a, c),
{
    reveal(lines_ok);
    assert forall|i: int| a <= i < c implies is_line(#[trigger] ls[i]) by {
        if i < b {
            assert(a <= i < b);
        } else {
            assert(b <= i < c);
        }
    }
}

/// A line in a run of well-formed lines is well-formed.
pub proof fn lemma_lines_ok_at(ls: Seq<Seq<char>>, a: int, b: int, i: int)
    requires
        lines_ok(ls, a, b),
        a <= i < b,
    ensures
        is_line(ls[i]),
{
    reveal(lines_ok);
}

/// A line of `n` spaces and text that starts with `-` is an entry of the
/// list at `n`.
pub proof fn lemma_dash_line(ls: Seq<Seq<char>>, q: int, n: nat, rest: Seq<char>)
    requires
        0 <= q < ls.len(),
        ls[q] == nl(spaces(n) + rest),
        rest.len() > 0,
        rest[0] == '-',
    ensures
        next_line(ls, q) == q,
        line_at(ls, q) == ls[q],
        clean(ls[q]),
        lead_spaces(ls[q]) == n,
        is_entry(ls[q], n),
{
    lemma_line(ls, q, n, rest);
    assert(trim(ls[q]).take(1) =~= seq!['-']);
}

/// Splitting `a + [c] + b + "\n"` at its first `c`, where `a` has none.
pub proof fn lemma_split_nl(a: Seq<char>, c: char, b: Seq<char>)
    requires
        lacks(a, c),
    ensures
        split_once(nl(a + seq![c] + b), c) == Some((a, b + seq!['\n'])),
{
    lemma_split_at(a, c, b + seq!['\n']);
    assert(nl(a + seq![c] + b) =~= a + seq![c] + (b + seq!['\n']));
}

/// One-line pieces make one line.
pub proof fn lemma_one_line3(a: Seq<char>, b: Seq<char>, c: Seq<char>)
    requires
        one_line(a),
        one_line(b),
        one_line(c),
    ensures
        one_line(a + b + c),
{
    let s = a + b + c;
    assert forall|i: int| 0 <= i < s.len() implies s[i] != '\n' by {
        if i < a.len() {
            assert(s[i] == a[i]);
        } else if i < a.len() + b.len() {
            assert(s[i] == b[i - a.len()]);
        } else {
            assert(s[i] == c[i - a.len() - b.len()]);
        }
    }
}

/// An array item's first line is an entry of the list at `ind + 2`.
proof fn lemma_item_entry(ls: Seq<Seq<char>>, q: int, ind: nat, k: nat, hd: Seq<char>)
    requires
        0 <= q < ls.len(),
        ls[q] == nl(spaces(ind + 2) + "- "@ + dec(k) + ":"@ + hd),
    ensures
        next_line(ls, q) == q,
        line_at(ls, q) == ls[q],
        clean(ls[q]),
        lead_spaces(ls[q]) == ind + 2,
        is_entry(ls[q], ind + 2),
{
    assert("- "@ == seq!['-', ' ']) by {
        reveal_strlit("- ");
    }
    assert(":"@ == seq![':']) by {
        reveal_strlit(":");
    }
    let rest = seq!['-', ' '] + dec(k) + seq![':'] + hd;
    assert(ls[q] =~= nl(spaces(ind + 2) + rest));
    lemma_dash_line(ls, q, ind + 2, rest);
}

/// An array item's first line splits at the colon after its number.
proof fn lemma_item_split(ind: nat, k: nat, hd: Seq<char>)
    ensures
        split_once(nl(spaces(ind + 2) + "- "@ + dec(k) + ":"@ + hd), ':') == Some(
            (spaces(ind + 2) + seq!['-', ' '] + dec(k), hd + seq!['\n']),
        ),
{
    assert("- "@ == seq!['-', ' ']) by {
        reveal_strlit("- ");
    }
    assert(":"@ == seq![':']) by {
        reveal_strlit(":");
    }
    let d = dec(k);
    lemma_radix_value(k, 10);
    let a = spaces(ind + 2) + seq!['-', ' '] + d;
    assert(lacks(a, ':')) by {
        assert forall|j: int| 0 <= j < a.len() implies a[j] != ':' by {
            if j >= ind + 4 {
                assert(a[j] == d[j - ind - 4]);
            }
        }
    }
    lemma_split_nl(a, ':', hd);
    assert(nl(spaces(ind + 2) + "- "@ + dec(k) + ":"@ + hd) =~= nl(a + seq![':'] + hd));
}

/// An array item's first line is a well-formed line when its head is one
/// line.
proof fn lemma_item_is_line(ind: nat, k: nat, hd: Seq<char>)
    requires
        one_line(hd),
    ensures
        is_line(nl(spaces(ind + 2) + "- "@ + dec(k) + ":"@ + hd)),
{
    assert("- "@ == seq!['-', ' ']) by {
        reveal_strlit("- ");
    }
    assert(":"@ == seq![':']) by {
        reveal_strlit(":");
    }
    let d = dec(k);
    lemma_radix_value(k, 10);
    let mid = seq!['-', ' '] + d;
    assert(one_line(mid)) by {
        assert forall|i: int| 0 <= i < mid.len() implies mid[i] != '\n' by {
            if i >= 2 {
                assert(mid[i] == d[i - 2]);
            }
        }
    }
    lemma_one_line3(mid, seq![':'], hd);
    assert(nl(spaces(ind + 2) + "- "@ + dec(k) + ":"@ + hd) =~= nl(spaces(ind + 2) + (mid + seq![':'] + hd)));
    lemma_is_line(ind + 2, mid + seq![':'] + hd);
}

/// The facts about an array item's first line that reading it needs.
#[verifier::opaque]
pub open spec fn item_at(ls: Seq<Seq<char>>, pos: int, ind: nat, x: Seq<char>, v: Seq<char>) -> bool {
    &&& 0 <= pos < ls.len()
    &&& next_line(ls, pos) == pos
    &&& is_entry(ls[pos], ind + 2)
    &&& split_once(ls[pos], ':') == Some((x, v))
}

/// An array item's first line: an entry of the list at `ind + 2`, split at
/// the colon after its number.
pub proof fn lemma_item_line(ls: Seq<Seq<char>>, q: int, ind: nat, k: nat, hd: Seq<char>)
    requires
        0 <= q < ls.len(),
        ls[q] == nl(spaces(ind + 2) + "- "@ + dec(k) + ":"@ + hd),
    ensures
        item_at(ls, q, ind, spaces(ind + 2) + seq!['-', ' '] + dec(k), hd + seq!['\n']),
        one_line(hd) ==> lines_ok(ls, q, q + 1),
{
    reveal(item_at);
    reveal(lines_ok);
    lemma_item_entry(ls, q, ind, k, hd);
    lemma_item_split(ind, k, hd);
    if one_line(hd) {
        lemma_item_is_line(ind, k, hd);
    }
}

/// An array item's first line ends every list indented by more than the
/// item's dash.
pub proof fn lemma_item_start(ls: Seq<Seq<char>>, q: int, ind: nat, k: nat, hd: Seq<char>, j: nat)
    requires
        0 <= q < ls.len(),
        ls[q] == nl(spaces(ind + 2) + "- "@ + dec(k) + ":"@ + hd),
        ind + 2 < j,
    ensures
        ends_at(ls, q, j),
{
    lemma_item_entry(ls, q, ind, k, hd);
    lemma_ends_at_line(ls, q, ind + 2, j);
}

/// A map entry's first line is an entry of the list at `ind + 4`.
proof fn lemma_entry_entry(ls: Seq<Seq<char>>, q: int, ind: nat, kc: Seq<char>, hd: Seq<char>)
    requires
        0 <= q < ls.len(),
        ls[q] == nl(spaces(ind + 4) + "- "@ + kc + ":"@ + hd),
    ensures
        next_line(ls, q) == q,
        line_at(ls, q) == ls[q],
        clean(ls[q]),
        lead_spaces(ls[q]) == ind + 4,
        is_entry(ls[q], ind + 4),
{
    assert("- "@ == seq!['-', ' ']) by {
        reveal_strlit("- ");
    }
    assert(":"@ == seq![':']) by {
        reveal_strlit(":");
    }
    let rest = seq!['-'] + (seq![' '] + kc + seq![':'] + hd);
    assert(ls[q] =~= nl(spaces(ind + 4) + rest));
    lemma_dash_line(ls, q, ind + 4, rest);
}

/// A map entry's first line splits at its dash.
proof fn lemma_entry_dash(ind: nat, kc: Seq<char>, hd: Seq<char>)
    ensures
        split_once(nl(spaces(ind + 4) + "- "@ + kc + ":"@ + hd), '-') == Some(
            (spaces(ind + 4), seq![' '] + kc + seq![':'] + hd + seq!['\n']),
        ),
{
    let tail = seq![' '] + kc + seq![':'] + hd + seq!['\n'];
    let sp = spaces(ind + 4);
    assert(nl(spaces(ind + 4) + "- "@ + kc + ":"@ + hd) == sp + seq!['-'] + tail) by {
        assert("- "@ == seq!['-', ' ']) by {
            reveal_strlit("- ");
        }
        assert(":"@ == seq![':']) by {
            reveal_strlit(":");
        }
        let line = sp + seq!['-', ' '] + kc + seq![':'] + hd;
        assert(nl(spaces(ind + 4) + "- "@ + kc + ":"@ + hd) == nl(line));
        assert(nl(line) =~= sp + seq!['-'] + tail);
    }
    assert(lacks(sp, '-'));
    lemma_split_at(sp, '-', tail);
}

/// The rest of a map entry's first line splits at the colon after its key.
proof fn lemma_entry_colon(kc: Seq<char>, hd: Seq<char>)
    requires
        plain(kc),
        lacks(kc, ':'),
    ensures
        split_once(seq![' '] + kc + seq![':'] + hd + seq!['\n'], ':') == Some((seq![' '] + kc, hd + seq!['\n'])),
        trim(seq![' '] + kc) == kc,
{
    let a = seq![' '] + kc;
    assert(lacks(a, ':')) by {
        assert forall|j: int| 0 <= j < a.len() implies a[j] != ':' by {
            if j >= 1 {
                assert(a[j] == kc[j - 1]);
            }
        }
    }
    lemma_split_nl(a, ':', hd);
    assert(nl(a + seq![':'] + hd) =~= seq![' '] + kc + seq![':'] + hd + seq!['\n']);
    lemma_trim_pad(seq![' '], kc, Seq::<char>::empty());
    assert(seq![' '] + kc + Seq::<char>::empty() =~= a);
}

/// A map entry's first line is a well-formed line when its head is one
/// line.
proof fn lemma_entry_is_line(ls: Seq<Seq<char>>, q: int, ind: nat, kc: Seq<char>, hd: Seq<char>)
    requires
        0 <= q < ls.len(),
        ls[q] == nl(spaces(ind + 4) + "- "@ + kc + ":"@ + hd),
        one_line(kc),
        one_line(hd),
    ensures
        is_line(ls[q]),
{
    assert("- "@ == seq!['-', ' ']) by {
        reveal_strlit("- ");
    }
    assert(":"@ == seq![':']) by {
        reveal_strlit(":");
    }
    lemma_one_line3(seq!['-', ' '], kc, seq![':']);
    lemma_one_line3(seq!['-', ' '] + kc + seq![':'], hd, Seq::<char>::empty());
    let rest = seq!['-', ' '] + kc + seq![':'] + hd;
    assert(rest + Seq::<char>::empty() =~= rest);
    assert(ls[q] =~= nl(spaces(ind + 4) + rest));
    lemma_is_line(ind + 4, rest);
}

/// The facts about a map entry's first line that reading it needs.
#[verifier::opaque]
pub open spec fn entry_at(ls: Seq<Seq<char>>, pos: int, ind: nat, rest: Seq<char>, kx: Seq<char>, v: Seq<char>) -> bool {
    &&& 0 <= pos < ls.len()
    &&& next_line(ls, pos) == pos
    &&& is_entry(ls[pos], ind + 4)
    &&& split_once(ls[pos], '-') == Some((spaces(ind + 4), rest))
    &&& split_once(rest, ':') == Some((kx, v))
}

/// A map entry's first line: an entry of the list at `ind + 4`, split at
/// its dash and then at the colon after its key.

#[verifier::spinoff_prover]
#[verifier::rlimit(100)]
pub proof fn lemma_entry_line(ls: Seq<Seq<char>>, q: int, ind: nat, kc: Seq<char>, hd: Seq<char>)
    requires
        0 <= q < ls.len(),
        ls[q] == nl(spaces(ind + 4) + "- "@ + kc + ":"@ + hd),
        plain(kc),
        lacks(kc, ':'),
    ensures
        entry_at(ls, q, ind, seq![' '] + kc + seq![':'] + hd + seq!['\n'], seq![' '] + kc, hd + seq!['\n']),
        trim(seq![' '] + kc) == kc,
        one_line(hd) ==> lines_ok(ls, q, q + 1),
{
    reveal(entry_at);
    reveal(lines_ok);
    lemma_entry_entry(ls, q, ind, kc, hd);
    lemma_entry_dash(ind, kc, hd);
    lemma_entry_colon(kc, hd);
    if one_line(hd) {
        lemma_entry_is_line(ls, q, ind, kc, hd);
    }
}

/// A map entry's first line ends every list indented by more than the
/// entry's dash.
pub proof fn lemma_entry_start(ls: Seq<Seq<char>>, q: int, ind: nat, kc: Seq<char>, hd: Seq<char>, j: nat)
    requires
        0 <= q < ls.len(),
        ls[q] == nl(spaces(ind + 4) + "- "@ + kc + ":"@ + hd),
        ind + 4 < j,
    ensures
        ends_at(ls, q, j),
{
    lemma_entry_entry(ls, q, ind, kc, hd);
    lemma_ends_at_line(ls, q, ind + 4, j);
}

/// A property's first line starts, after `ind` spaces, with a character
/// that is not whitespace.
pub proof fn lemma_prop_start(ls: Seq<Seq<char>>, q: int, ind: nat, h: HeaderModel, hd: Seq<char>)
    requires
        0 <= q < ls.len(),
        ls[q] == nl(spaces(ind) + name_part(h) + hd),
        name_ok(h.name),
    ensures
        clean(ls[q]),
        lead_spaces(ls[q]) == ind,
{
    lemma_name_back(h);
    let left = name_left(h);
    let rest = left + seq![':', ' '] + hd;
    assert(ls[q] =~= nl(spaces(ind) + rest));
    if left.len() > 0 {
        assert(rest[0] == left[0]);
    } else {
        assert(rest[0] == ':');
    }
    lemma_line(ls, q, ind, rest);
}




/// An array's items with the metadata that reading gives each.
pub open spec fn items_back(items: Seq<DataModel>, m: MetadataModel) -> Seq<(DataModel, MetadataModel)> {
    Seq::new(items.len(), |i: int| (items[i], meta_back(items[i], m)))
}

/// A map's entries with the metadata that reading gives each value.
pub open spec fn sets_back(pairs: Seq<(DataModel, DataModel)>, m: MetadataModel) -> Seq<
    (DataModel, DataModel, MetadataModel),
> {
    Seq::new(pairs.len(), |i: int| (pairs[i].0, pairs[i].1, meta_back(pairs[i].1, m)))
}

/// A field line `f: x` as the writer builds it from its literal.
pub proof fn lemma_field_eq(n: nat, lit: Seq<char>, f: Seq<char>, x: Seq<char>)
    requires
        lit == f + seq![':', ' '],
    ensures
        nl(spaces(n) + lit + x) == nl(spaces(n) + f + seq![':'] + (seq![' '] + x)),
{
    assert(nl(spaces(n) + lit + x) =~= nl(spaces(n) + f + seq![':'] + (seq![' '] + x)));
}

/// A field line `f:` with nothing after the colon.
pub proof fn lemma_field_eq0(n: nat, lit: Seq<char>, f: Seq<char>)
    requires
        lit == f + seq![':'],
    ensures
        nl(spaces(n) + lit) == nl(spaces(n) + f + seq![':'] + Seq::<char>::empty()),
{
    assert(nl(spaces(n) + lit) =~= nl(spaces(n) + f + seq![':'] + Seq::<char>::empty()));
}

/// A value reads back at indentation `ind` and can be written there.
#[verifier::opaque]
pub open spec fn value_ok(d: DataModel, m: MetadataModel, r: spec_fn(u32) -> Seq<char>, fl: Seq<(Seq<char>, Option<u32>)>, ind: nat) -> bool {
    data_rt(d, m, r, fl) && b64s(d, m) && data_text_ok(d, m, ind)
}

/// A map entry reads back under the key type at indentation `ind`.
#[verifier::opaque]
pub open spec fn entry_ok(
    e: (DataModel, DataModel),
    kt: Seq<char>,
    m: MetadataModel,
    r: spec_fn(u32) -> Seq<char>,
    fl: Seq<(Seq<char>, Option<u32>)>,
    ind: nat,
) -> bool {
    key_rt(e.0, kt, r, fl) && data_rt(e.1, m, r, fl) && b64s(e.1, m) && data_text_ok(e.1, m, ind + 6)
}

/// A value written at indentation `ind`, with its head after `pre` on the
/// line that names it and its further lines from `pos`, reads back.
pub proof fn lemma_value_back(
    ls: Seq<Seq<char>>,
    fl: Seq<(Seq<char>, Option<u32>)>,
    r: spec_fn(u32) -> Seq<char>,
    d: DataModel,
    m: MetadataModel,
    ind: nat,
    pre: Seq<char>,
    pos: int,
)
    requires
        data_rt(d, m, r, fl),
        b64s(d, m),
        data_text_ok(d, m, ind),
        all_ws(pre),
        lines_at(ls, pos, body_lines(d, m, ind, r)),
        ends_at(ls, pos + body_lines(d, m, ind, r).len(), ind + 1),
    ensures
        parse_value(ls, fl, pre + head(d, m, r) + seq!['\n'], pos, ind) == Ok::<(DataModel, MetadataModel, int), TextError>(
            (d, meta_back(d, m), pos + body_lines(d, m, ind, r).len()),
        ),
        one_line(head(d, m, r)),
        lines_ok(ls, pos, pos + body_lines(d, m, ind, r).len()),
    decreases d, 2int,
{
    match d {
        DataModel::Struct(..) => lemma_struct_back(ls, fl, r, d, m, ind, pre, pos),
        DataModel::MapEntries(..) => lemma_map_back(ls, fl, r, d, m, ind, pre, pos),
        DataModel::Array(..) => lemma_array_back(ls, fl, r, d, m, ind, pre, pos),
        _ => {
            lemma_scalar_back(ls, fl, d, m, r, pre, pos, ind);
            lemma_lines_ok_empty(ls, pos);
        },
    }
}

/// A struct value reads back: its head and its properties.
pub proof fn lemma_struct_back(
    ls: Seq<Seq<char>>,
    fl: Seq<(Seq<char>, Option<u32>)>,
    r: spec_fn(u32) -> Seq<char>,
    d: DataModel,
    m: MetadataModel,
    ind: nat,
    pre: Seq<char>,
    pos: int,
)
    requires
        d is Struct,
        data_rt(d, m, r, fl),
        b64s(d, m),
        data_text_ok(d, m, ind),
        all_ws(pre),
        lines_at(ls, pos, body_lines(d, m, ind, r)),
        ends_at(ls, pos + body_lines(d, m, ind, r).len(), ind + 1),
    ensures
        parse_value(ls, fl, pre + head(d, m, r) + seq!['\n'], pos, ind) == Ok::<(DataModel, MetadataModel, int), TextError>(
            (d, meta_back(d, m), pos + body_lines(d, m, ind, r).len()),
        ),
        one_line(head(d, m, r)),
        lines_ok(ls, pos, pos + body_lines(d, m, ind, r).len()),
    decreases d, 1int,
{
    let props = d->Struct_0;
    lemma_struct_head_back(d, m, r, fl, pre);
    assert(body_lines(d, m, ind, r) == props_lines(props, ind + 2, r));
    lemma_ends_weaken(ls, pos + body_lines(d, m, ind, r).len(), ind + 1, ind + 2);
    lemma_props_back(ls, fl, r, props, ind + 2, pos);
}

/// Properties written at indentation `ind` from `pos` read back, up to a
/// line indented by less.
pub proof fn lemma_props_back(
    ls: Seq<Seq<char>>,
    fl: Seq<(Seq<char>, Option<u32>)>,
    r: spec_fn(u32) -> Seq<char>,
    props: Seq<PropertyModel>,
    ind: nat,
    pos: int,
)
    requires
        forall|i: int|
            0 <= i < props.len() ==> prop_rt(#[trigger] props[i], r, fl) && b64s(props[i].data, props[i].metadata)
                && prop_text_ok(props[i], ind),
        lines_at(ls, pos, props_lines(props, ind, r)),
        ends_at(ls, pos + props_lines(props, ind, r).len(), ind),
    ensures
        parse_props(ls, fl, pos, ind) == Ok::<(Seq<PropertyModel>, int), TextError>(
            (props, pos + props_lines(props, ind, r).len()),
        ),
        lines_ok(ls, pos, pos + props_lines(props, ind, r).len()),
    decreases props, 1int,
{
    if props.len() == 0 {
        lemma_prop_none(ls, fl, pos, ind);
        lemma_lines_ok_empty(ls, pos);
        assert(props =~= Seq::<PropertyModel>::empty());
    } else {
        let p0 = props[0];
        let rest = props.subrange(1, props.len() as int);
        let a = prop_lines(p0, ind, r);
        let b = props_lines(rest, ind, r);
        let end = pos + props_lines(props, ind, r).len();
        assert(props_lines(props, ind, r) == a + b);
        lemma_lines_at_split(ls, pos, a, b);
        let q = pos + a.len();
        assert forall|i: int|
            0 <= i < rest.len() implies prop_rt(#[trigger] rest[i], r, fl) && b64s(rest[i].data, rest[i].metadata)
                && prop_text_ok(rest[i], ind) by {
            assert(rest[i] == props[i + 1]);
        }
        if rest.len() > 0 {
            let p1 = rest[0];
            assert(prop_rt(p1, r, fl));
            let rest1 = rest.subrange(1, rest.len() as int);
            assert(b == prop_lines(p1, ind, r) + props_lines(rest1, ind, r));
            lemma_lines_at_first(ls, q, b);
            assert(ls[q] == nl(spaces(ind) + name_part(p1.header) + head(p1.data, p1.metadata, r)));
            lemma_prop_start(ls, q, ind, p1.header, head(p1.data, p1.metadata, r));
            lemma_ends_at_line(ls, q, ind, ind + 1);
        } else {
            lemma_ends_weaken(ls, q, ind, ind + 1);
        }
        assert(prop_rt(p0, r, fl) && b64s(p0.data, p0.metadata) && prop_text_ok(p0, ind));
        lemma_prop_back(ls, fl, r, p0, ind, pos);
        lemma_props_back(ls, fl, r, rest, ind, q);
        lemma_props_step(ls, fl, pos, ind, p0, q, rest, end);
        assert(seq![p0] + rest =~= props);
        lemma_lines_ok_cat(ls, pos, q, end);
    }
}

/// A property written at indentation `ind` from `pos` reads back.
pub proof fn lemma_prop_back(
    ls: Seq<Seq<char>>,
    fl: Seq<(Seq<char>, Option<u32>)>,
    r: spec_fn(u32) -> Seq<char>,
    p: PropertyModel,
    ind: nat,
    pos: int,
)
    requires
        prop_rt(p, r, fl),
        b64s(p.data, p.metadata),
        prop_text_ok(p, ind),
        lines_at(ls, pos, prop_lines(p, ind, r)),
        ends_at(ls, pos + prop_lines(p, ind, r).len(), ind + 1),
    ensures
        parse_prop(ls, fl, pos, ind) == Ok::<(Option<PropertyModel>, int), TextError>(
            (Some(p), pos + prop_lines(p, ind, r).len()),
        ),
        lines_ok(ls, pos, pos + prop_lines(p, ind, r).len()),
    decreases p, 0int,
{
    let d = p.data;
    let m = p.metadata;
    let hd = head(d, m, r);
    let body = body_lines(d, m, ind, r);
    let first = nl(spaces(ind) + name_part(p.header) + hd);
    assert(prop_lines(p, ind, r) == seq![first] + body);
    lemma_lines_at_split(ls, pos, seq![first], body);
    lemma_lines_at_first(ls, pos, seq![first]);
    assert(all_ws(seq![' ']));
    lemma_value_back(ls, fl, r, d, m, ind, seq![' '], pos + 1);
    lemma_prop_line(ls, pos, ind, p.header, hd);
    let end = pos + 1 + body.len();
    lemma_prop_step(
        ls,
        fl,
        pos,
        ind,
        spaces(ind) + name_left(p.header),
        seq![' '] + hd + seq!['\n'],
        p.header.name,
        p.header.arr_index,
        d,
        meta_back(d, m),
        end,
    );
    let hm = HeaderModel { name: p.header.name, prop_type: spec_type_name(d), arr_index: p.header.arr_index };
    assert(hm == p.header);
    assert(PropertyModel { header: hm, metadata: meta_back(d, m), data: d } == p);
    lemma_lines_ok_one(ls, pos);
    lemma_lines_ok_cat(ls, pos, pos + 1, end);
}

/// One array item, numbered `k`, written at `pos`, reads back.
#[verifier::spinoff_prover]
#[verifier::rlimit(60)]
pub proof fn lemma_item_back(
    ls: Seq<Seq<char>>,
    fl: Seq<(Seq<char>, Option<u32>)>,
    r: spec_fn(u32) -> Seq<char>,
    d: DataModel,
    m: MetadataModel,
    ind: nat,
    pos: int,
    k: nat,
)
    requires
        value_ok(d, m, r, fl, ind + 4),
        lines_at(ls, pos, seq![nl(spaces(ind + 2) + "- "@ + dec(k) + ":"@ + head(d, m, r))]),
        lines_at(ls, pos + 1, body_lines(d, m, ind + 4, r)),
        ends_at(ls, pos + 1 + body_lines(d, m, ind + 4, r).len(), ind + 5),
    ensures
        item_at(ls, pos, ind, spaces(ind + 2) + seq!['-', ' '] + dec(k), head(d, m, r) + seq!['\n']),
        parse_value(ls, fl, head(d, m, r) + seq!['\n'], pos + 1, ind + 4) == Ok::<(DataModel, MetadataModel, int), TextError>(
            (d, meta_back(d, m), pos + 1 + body_lines(d, m, ind + 4, r).len()),
        ),
        lines_ok(ls, pos, pos + 1 + body_lines(d, m, ind + 4, r).len()),
    decreases d, 3int,
{
    let hd = head(d, m, r);
    let q = pos + 1 + body_lines(d, m, ind + 4, r).len();
    lemma_lines_at_first(ls, pos, seq![nl(spaces(ind + 2) + "- "@ + dec(k) + ":"@ + hd)]);
    assert(data_rt(d, m, r, fl) && b64s(d, m) && data_text_ok(d, m, ind + 4)) by {
        reveal(value_ok);
    }
    lemma_value_back(ls, fl, r, d, m, ind + 4, Seq::<char>::empty(), pos + 1);
    assert(parse_value(ls, fl, hd + seq!['\n'], pos + 1, ind + 4) == Ok::<(DataModel, MetadataModel, int), TextError>(
        (d, meta_back(d, m), q),
    )) by {
        assert(Seq::<char>::empty() + hd + seq!['\n'] =~= hd + seq!['\n']);
    }
    lemma_item_line(ls, pos, ind, k, hd);
    lemma_lines_ok_cat(ls, pos, pos + 1, q);
}

/// Array items written from `pos`, numbered from `base`, read back up to a
/// line indented by less than `ind + 2`.

#[verifier::spinoff_prover]
#[verifier::rlimit(100)]
pub proof fn lemma_items_back(
    ls: Seq<Seq<char>>,
    fl: Seq<(Seq<char>, Option<u32>)>,
    r: spec_fn(u32) -> Seq<char>,
    items: Seq<DataModel>,
    m: MetadataModel,
    ind: nat,
    pos: int,
    base: nat,
)
    requires
        forall|i: int| 0 <= i < items.len() ==> value_ok(#[trigger] items[i], m, r, fl, ind + 4),
        lines_at(ls, pos, blocks(items, m, ind, r, base)),
        ends_at(ls, pos + blocks(items, m, ind, r, base).len(), ind + 2),
    ensures
        array_items(ls, fl, pos, ind) == Ok::<(Seq<(DataModel, MetadataModel)>, int), TextError>(
            (items_back(items, m), pos + blocks(items, m, ind, r, base).len()),
        ),
        lines_ok(ls, pos, pos + blocks(items, m, ind, r, base).len()),
    decreases items, 0int,
{
    if items.len() == 0 {
        lemma_items_none(ls, fl, pos, ind);
        lemma_lines_ok_empty(ls, pos);
        assert(items_back(items, m) =~= Seq::<(DataModel, MetadataModel)>::empty());
    } else {
        let d0 = items[0];
        let rest = items.subrange(1, items.len() as int);
        let hd = head(d0, m, r);
        let first = nl(spaces(ind + 2) + "- "@ + dec(base) + ":"@ + hd);
        let body = body_lines(d0, m, ind + 4, r);
        let tail = blocks(rest, m, ind, r, base + 1);
        let end = pos + blocks(items, m, ind, r, base).len();
        let q = pos + 1 + body.len();
        assert(blocks(items, m, ind, r, base) == seq![first] + body + tail);
        lemma_lines_at_split(ls, pos, seq![first] + body, tail);
        lemma_lines_at_split(ls, pos, seq![first], body);
        assert forall|i: int| 0 <= i < rest.len() implies value_ok(#[trigger] rest[i], m, r, fl, ind + 4) by {
            assert(rest[i] == items[i + 1]);
        }
        assert(ends_at(ls, q, ind + 5)) by {
            if rest.len() > 0 {
                let rest1 = rest.subrange(1, rest.len() as int);
                assert(tail == seq![nl(spaces(ind + 2) + "- "@ + dec(base + 1) + ":"@ + head(rest[0], m, r))]
                    + body_lines(rest[0], m, ind + 4, r) + blocks(rest1, m, ind, r, base + 2));
                lemma_lines_at_first(ls, q, tail);
                lemma_item_start(ls, q, ind, base + 1, head(rest[0], m, r), ind + 5);
            } else {
                lemma_ends_weaken(ls, q, ind + 2, ind + 5);
            }
        }
        assert(value_ok(d0, m, r, fl, ind + 4));
        lemma_item_back(ls, fl, r, d0, m, ind, pos, base);
        lemma_items_back(ls, fl, r, rest, m, ind, q, base + 1);
        lemma_lines_at_bounds(ls, q, tail);
        lemma_items_step(
            ls,
            fl,
            pos,
            ind,
            spaces(ind + 2) + seq!['-', ' '] + dec(base),
            hd + seq!['\n'],
            d0,
            meta_back(d0, m),
            q,
            items_back(rest, m),
            end,
        );
        assert(seq![(d0, meta_back(d0, m))] + items_back(rest, m) =~= items_back(items, m));
        lemma_lines_ok_cat(ls, pos, q, end);
    }
}

/// Map entries written from `pos` read back under the key type, up to a
/// line indented by less than `ind + 4`.

#[verifier::spinoff_prover]
#[verifier::rlimit(100)]
pub proof fn lemma_entries_back(
    ls: Seq<Seq<char>>,
    fl: Seq<(Seq<char>, Option<u32>)>,
    r: spec_fn(u32) -> Seq<char>,
    pairs: Seq<(DataModel, DataModel)>,
    m: MetadataModel,
    ind: nat,
    pos: int,
    kt: Seq<char>,
)
    requires
        forall|i: int| 0 <= i < pairs.len() ==> entry_ok(#[trigger] pairs[i], kt, m, r, fl, ind),
        lines_at(ls, pos, entries(pairs, m, ind, r)),
        ends_at(ls, pos + entries(pairs, m, ind, r).len(), ind + 4),
    ensures
        map_entries(ls, fl, pos, ind, kt) == Ok::<(Seq<(DataModel, DataModel, MetadataModel)>, int), TextError>(
            (sets_back(pairs, m), pos + entries(pairs, m, ind, r).len()),
        ),
        lines_ok(ls, pos, pos + entries(pairs, m, ind, r).len()),
    decreases pairs, 0int,
{
    if pairs.len() == 0 {
        lemma_entries_none(ls, fl, pos, ind, kt);
        lemma_lines_ok_empty(ls, pos);
        assert(sets_back(pairs, m) =~= Seq::<(DataModel, DataModel, MetadataModel)>::empty());
    } else {
        let e0 = pairs[0];
        let rest = pairs.subrange(1, pairs.len() as int);
        let kc = key_chars(e0.0, r);
        let hd = head(e0.1, m, r);
        let first = nl(spaces(ind + 4) + "- "@ + kc + ":"@ + hd);
        let body = body_lines(e0.1, m, ind + 6, r);
        let tail = entries(rest, m, ind, r);
        let end = pos + entries(pairs, m, ind, r).len();
        let q = pos + 1 + body.len();
        assert(entries(pairs, m, ind, r) == seq![first] + body + tail);
        lemma_lines_at_split(ls, pos, seq![first] + body, tail);
        lemma_lines_at_split(ls, pos, seq![first], body);
        lemma_lines_at_first(ls, pos, seq![first]);
        assert forall|i: int| 0 <= i < rest.len() implies entry_ok(#[trigger] rest[i], kt, m, r, fl, ind) by {
            assert(rest[i] == pairs[i + 1]);
        }
        assert(ends_at(ls, q, ind + 7)) by {
            if rest.len() > 0 {
                let rest1 = rest.subrange(1, rest.len() as int);
                assert(tail == seq![nl(spaces(ind + 4) + "- "@ + key_chars(rest[0].0, r) + ":"@ + head(rest[0].1, m, r))]
                    + body_lines(rest[0].1, m, ind + 6, r) + entries(rest1, m, ind, r));
                lemma_lines_at_first(ls, q, tail);
                lemma_entry_start(ls, q, ind, key_chars(rest[0].0, r), head(rest[0].1, m, r), ind + 7);
            } else {
                lemma_ends_weaken(ls, q, ind + 4, ind + 7);
            }
        }
        assert(key_rt(e0.0, kt, r, fl) && data_rt(e0.1, m, r, fl) && b64s(e0.1, m) && data_text_ok(e0.1, m, ind + 6)) by {
            assert(entry_ok(e0, kt, m, r, fl, ind));
            reveal(entry_ok);
        }
        lemma_value_back(ls, fl, r, e0.1, m, ind + 6, Seq::<char>::empty(), pos + 1);
        assert(parse_value(ls, fl, hd + seq!['\n'], pos + 1, ind + 6) == Ok::<(DataModel, MetadataModel, int), TextError>(
            (e0.1, meta_back(e0.1, m), q),
        )) by {
            assert(Seq::<char>::empty() + hd + seq!['\n'] =~= hd + seq!['\n']);
        }
        lemma_entry_line(ls, pos, ind, kc, hd);
        lemma_key_back(fl, e0.0, kt, r);
        lemma_entries_back(ls, fl, r, rest, m, ind, q, kt);
        lemma_entries_step(
            ls,
            fl,
            pos,
            ind,
            kt,
            seq![' '] + kc + seq![':'] + hd + seq!['\n'],
            seq![' '] + kc,
            hd + seq!['\n'],
            e0.0,
            e0.1,
            meta_back(e0.1, m),
            q,
            sets_back(rest, m),
            end,
        );
        assert(seq![(e0.0, e0.1, meta_back(e0.1, m))] + sets_back(rest, m) =~= sets_back(pairs, m));
        lemma_lines_ok_cat(ls, pos, pos + 1, q);
        lemma_lines_ok_cat(ls, pos, q, end);
    }
}

/// The three field lines of a map and its entries read back.

#[verifier::spinoff_prover]
#[verifier::rlimit(100)]
pub proof fn lemma_map_fields_back(
    ls: Seq<Seq<char>>,
    fl: Seq<(Seq<char>, Option<u32>)>,
    r: spec_fn(u32) -> Seq<char>,
    pairs: Seq<(DataModel, DataModel)>,
    m: MetadataModel,
    ind: nat,
    pos: int,
)
    requires
        m is MapTypes,
        plain(m->MapTypes_0),
        plain(m->MapTypes_1),
        0 <= pos,
        pos + 3 <= ls.len(),
        ls[pos] == nl(spaces(ind + 2) + "key_type: "@ + m->MapTypes_0),
        ls[pos + 1] == nl(spaces(ind + 2) + "val_type: "@ + m->MapTypes_1),
        ls[pos + 2] == nl(spaces(ind + 2) + "map_data:"@),
        forall|i: int|
            0 <= i < pairs.len() ==> entry_ok(#[trigger] pairs[i], m->MapTypes_0, m, r, fl, ind) && spec_type_name(
                pairs[i].1,
            ) == m->MapTypes_1,
        lines_at(ls, pos + 3, entries(pairs, m, ind, r)),
        ends_at(ls, pos + 3 + entries(pairs, m, ind, r).len(), ind + 4),
    ensures
        map_fields(ls, fl, pos, ind, 3, None, None, seq![]) == Ok::<
            (Option<Seq<char>>, Option<Seq<char>>, Seq<(DataModel, DataModel, MetadataModel)>, int),
            TextError,
        >((Some(m->MapTypes_0), Some(m->MapTypes_1), sets_back(pairs, m), pos + 3 + entries(pairs, m, ind, r).len())),
        lines_ok(ls, pos, pos + 3 + entries(pairs, m, ind, r).len()),
    decreases pairs, 1int,
{
    let k = m->MapTypes_0;
    let v = m->MapTypes_1;
    let end = pos + 3 + entries(pairs, m, ind, r).len();
    let sets = sets_back(pairs, m);
    let none = Seq::<(DataModel, DataModel, MetadataModel)>::empty();
    lemma_map_lits();
    lemma_field_eq(ind + 2, "key_type: "@, "key_type"@, k);
    lemma_field_eq(ind + 2, "val_type: "@, "val_type"@, v);
    lemma_field_eq0(ind + 2, "map_data:"@, "map_data"@);
    lemma_one_line3(seq![' '], k, Seq::<char>::empty());
    lemma_one_line3(seq![' '], v, Seq::<char>::empty());
    assert(seq![' '] + k + Seq::<char>::empty() =~= seq![' '] + k);
    assert(seq![' '] + v + Seq::<char>::empty() =~= seq![' '] + v);
    lemma_field(ls, pos, ind + 2, "key_type"@, seq![' '] + k);
    lemma_field(ls, pos + 1, ind + 2, "val_type"@, seq![' '] + v);
    lemma_field(ls, pos + 2, ind + 2, "map_data"@, Seq::<char>::empty());
    assert(all_ws(seq![' ']));
    lemma_value_trim(seq![' '], k);
    lemma_value_trim(seq![' '], v);
    lemma_entries_back(ls, fl, r, pairs, m, ind, pos + 3, k);
    assert(none + sets =~= sets);
    assert forall|i: int| 0 <= i < (none + sets).len() implies spec_type_name(#[trigger] (none + sets)[i].1) == v by {
        assert((none + sets)[i] == sets[i]);
        assert(spec_type_name(pairs[i].1) == v);
    }
    lemma_key_type_step(ls, fl, pos, ind, 3, None, None, none, spaces(ind + 2) + "key_type"@, seq![' '] + k + seq!['\n']);
    lemma_val_type_step(ls, fl, pos + 1, ind, 2, Some(k), None, none, spaces(ind + 2) + "val_type"@, seq![' '] + v + seq!['\n']);
    lemma_lines_at_bounds(ls, pos + 3, entries(pairs, m, ind, r));
    lemma_map_data_step(ls, fl, pos + 2, ind, 1, k, v, none, spaces(ind + 2) + "map_data"@, seq!['\n'], sets, end);
    assert(map_fields(ls, fl, end, ind, 0, Some(k), Some(v), none + sets) == Ok::<
        (Option<Seq<char>>, Option<Seq<char>>, Seq<(DataModel, DataModel, MetadataModel)>, int),
        TextError,
    >((Some(k), Some(v), sets, end)));
    lemma_lines_ok_cat(ls, pos, pos + 1, pos + 2);
    lemma_lines_ok_cat(ls, pos, pos + 2, pos + 3);
    lemma_lines_ok_cat(ls, pos, pos + 3, end);
}

/// The entries of a map that reads back each read back.
pub proof fn lemma_map_entries_ok(d: DataModel, m: MetadataModel, r: spec_fn(u32) -> Seq<char>, fl: Seq<(Seq<char>, Option<u32>)>, ind: nat)
    requires
        d is MapEntries,
        data_rt(d, m, r, fl),
        b64s(d, m),
        data_text_ok(d, m, ind),
    ensures
        m is MapTypes,
        plain(m->MapTypes_0),
        plain(m->MapTypes_1),
        d->MapEntries_0.len() > 0,
        forall|i: int|
            0 <= i < d->MapEntries_0.len() ==> entry_ok(#[trigger] d->MapEntries_0[i], m->MapTypes_0, m, r, fl, ind)
                && spec_type_name(d->MapEntries_0[i].1) == m->MapTypes_1,
{
    match d {
        DataModel::MapEntries(pairs) => match m {
            MetadataModel::MapTypes(k, v) => {
                assert forall|i: int| 0 <= i < pairs.len() implies entry_ok(#[trigger] pairs[i], k, m, r, fl, ind)
                    && spec_type_name(pairs[i].1) == v by {
                    reveal(entry_ok);
                    assert(key_rt(pairs[i].0, k, r, fl));
                    assert(b64s(pairs[i].1, m));
                    assert(data_text_ok(pairs[i].1, m, ind + 6));
                }
            },
            _ => {},
        },
        _ => {},
    }
}

/// A map read from its fields.
pub proof fn lemma_parse_map_result(
    ls: Seq<Seq<char>>,
    fl: Seq<(Seq<char>, Option<u32>)>,
    pos: int,
    ind: nat,
    pairs: Seq<(DataModel, DataModel)>,
    m: MetadataModel,
    p: int,
)
    requires
        m is MapTypes,
        pairs.len() > 0,
        map_fields(ls, fl, pos, ind, 3, None, None, seq![]) == Ok::<
            (Option<Seq<char>>, Option<Seq<char>>, Seq<(DataModel, DataModel, MetadataModel)>, int),
            TextError,
        >((Some(m->MapTypes_0), Some(m->MapTypes_1), sets_back(pairs, m), p)),
    ensures
        parse_map(ls, fl, pos, ind) == Ok::<(DataModel, MetadataModel, int), TextError>((DataModel::MapEntries(pairs), m, p)),
{
    match parse_map(ls, fl, pos, ind) {
        Ok((DataModel::MapEntries(ps), mm, pp)) => {
            assert(ps =~= pairs);
        },
        _ => {},
    }
}

/// A map value reads back: its head, its field lines and its entries.
#[verifier::spinoff_prover]
#[verifier::rlimit(60)]
pub proof fn lemma_map_back(
    ls: Seq<Seq<char>>,
    fl: Seq<(Seq<char>, Option<u32>)>,
    r: spec_fn(u32) -> Seq<char>,
    d: DataModel,
    m: MetadataModel,
    ind: nat,
    pre: Seq<char>,
    pos: int,
)
    requires
        d is MapEntries,
        data_rt(d, m, r, fl),
        b64s(d, m),
        data_text_ok(d, m, ind),
        all_ws(pre),
        lines_at(ls, pos, body_lines(d, m, ind, r)),
        ends_at(ls, pos + body_lines(d, m, ind, r).len(), ind + 1),
    ensures
        parse_value(ls, fl, pre + head(d, m, r) + seq!['\n'], pos, ind) == Ok::<(DataModel, MetadataModel, int), TextError>(
            (d, meta_back(d, m), pos + body_lines(d, m, ind, r).len()),
        ),
        one_line(head(d, m, r)),
        lines_ok(ls, pos, pos + body_lines(d, m, ind, r).len()),
    decreases d, 1int,
{
    let pairs = d->MapEntries_0;
    let k = m->MapTypes_0;
    let v = m->MapTypes_1;
    let pre2 = spaces(ind + 2);
    let la = nl(pre2 + "key_type: "@ + k);
    let lb = nl(pre2 + "val_type: "@ + v);
    let lc = nl(pre2 + "map_data:"@);
    lemma_pairs_entries(pairs, m, ind, r);
    let es = entries(pairs, m, ind, r);
    let body = body_lines(d, m, ind, r);
    assert(body == seq![la, lb, lc] + es);
    lemma_lines_at_split(ls, pos, seq![la, lb, lc], es);
    lemma_lines_at_index(ls, pos, seq![la, lb, lc], 0);
    lemma_lines_at_index(ls, pos, seq![la, lb, lc], 1);
    lemma_lines_at_index(ls, pos, seq![la, lb, lc], 2);
    lemma_map_entries_ok(d, m, r, fl, ind);
    assert(body.len() == 3 + es.len());
    lemma_ends_weaken(ls, pos + body.len(), ind + 1, ind + 4);
    lemma_map_fields_back(ls, fl, r, pairs, m, ind, pos);
    let p_end = pos + body.len();
    lemma_parse_map_result(ls, fl, pos, ind, pairs, m, p_end);
    assert(head(d, m, r) == "!Map"@);
    lemma_tag_starts();
    lemma_value_trim(pre, "!Map"@);
    lemma_value_map_step(ls, fl, pre + "!Map"@ + seq!['\n'], pos, ind);
}

/// The `name` and `type` lines of an array's item schema read back.

#[verifier::spinoff_prover]
#[verifier::rlimit(100)]
pub proof fn lemma_schema_back(ls: Seq<Seq<char>>, pos: int, ind: nat, h: HeaderModel)
    requires
        0 <= pos,
        pos + 2 <= ls.len(),
        ls[pos] == nl(spaces(ind + 2) + "  name: "@ + h.name),
        ls[pos + 1] == nl(spaces(ind + 2) + "  type: "@ + h.prop_type),
        plain(h.name),
        plain(h.prop_type),
        h.arr_index == 0,
    ensures
        parse_schema(ls, pos, ind) == Ok::<(HeaderModel, int), TextError>((h, pos + 2)),
        lines_ok(ls, pos, pos + 2),
{
    lemma_schema_lits();
    let name = h.name;
    let ty = h.prop_type;
    assert(ls[pos] == nl(spaces(ind + 4) + "name"@ + seq![':'] + (seq![' '] + name))) by {
        assert(nl(spaces(ind + 2) + "  name: "@ + name) =~= nl(spaces(ind + 4) + "name"@ + seq![':'] + (seq![' '] + name)));
    }
    assert(ls[pos + 1] == nl(spaces(ind + 4) + "type"@ + seq![':'] + (seq![' '] + ty))) by {
        assert(nl(spaces(ind + 2) + "  type: "@ + ty) =~= nl(spaces(ind + 4) + "type"@ + seq![':'] + (seq![' '] + ty)));
    }
    lemma_one_line3(seq![' '], name, Seq::<char>::empty());
    lemma_one_line3(seq![' '], ty, Seq::<char>::empty());
    assert(seq![' '] + name + Seq::<char>::empty() =~= seq![' '] + name);
    assert(seq![' '] + ty + Seq::<char>::empty() =~= seq![' '] + ty);
    lemma_field(ls, pos, ind + 4, "name"@, seq![' '] + name);
    lemma_field(ls, pos + 1, ind + 4, "type"@, seq![' '] + ty);
    assert(all_ws(seq![' ']));
    lemma_value_trim(seq![' '], name);
    lemma_value_trim(seq![' '], ty);
    lemma_schema_name_step(ls, pos, ind, 2, None, None, spaces(ind + 4) + "name"@, seq![' '] + name + seq!['\n']);
    lemma_schema_type_step(ls, pos + 1, ind, 1, Some(name), None, spaces(ind + 4) + "type"@, seq![' '] + ty + seq!['\n']);
    assert(schema_fields(ls, pos + 2, ind, 0, Some(name), Some(ty)) == Ok::<(Option<Seq<char>>, Option<Seq<char>>, int), TextError>((Some(name), Some(ty), pos + 2)));
    assert(HeaderModel { name: name, prop_type: ty, arr_index: 0 } == h);
    lemma_lines_ok_cat(ls, pos, pos + 1, pos + 2);
}

/// The `items:` line of an array and its items read back.

#[verifier::spinoff_prover]
#[verifier::rlimit(100)]
pub proof fn lemma_items_field_back(
    ls: Seq<Seq<char>>,
    fl: Seq<(Seq<char>, Option<u32>)>,
    r: spec_fn(u32) -> Seq<char>,
    items: Seq<DataModel>,
    m: MetadataModel,
    ind: nat,
    q: int,
    t: Seq<char>,
    sch: Option<HeaderModel>,
    an: Option<Seq<char>>,
)
    requires
        0 <= q < ls.len(),
        ls[q] == nl(spaces(ind + 2) + "items:"@),
        forall|i: int| 0 <= i < items.len() ==> value_ok(#[trigger] items[i], m, r, fl, ind + 4) && spec_type_name(items[i]) == t,
        lines_at(ls, q + 1, items_lines(items, m, ind, r)),
        ends_at(ls, q + 1 + items_lines(items, m, ind, r).len(), ind + 2),
    ensures
        array_fields(ls, fl, q, ind, 1, Some(t), sch, an, seq![]) == Ok::<
            (Option<Seq<char>>, Option<HeaderModel>, Option<Seq<char>>, Seq<(DataModel, MetadataModel)>, int),
            TextError,
        >((Some(t), sch, an, items_back(items, m), q + 1 + items_lines(items, m, ind, r).len())),
        lines_ok(ls, q, q + 1 + items_lines(items, m, ind, r).len()),
    decreases items, 1int,
{
    lemma_array_lits();
    lemma_field_eq0(ind + 2, "items:"@, "items"@);
    lemma_field(ls, q, ind + 2, "items"@, Seq::<char>::empty());
    lemma_items_blocks(items, m, ind, r);
    lemma_items_back(ls, fl, r, items, m, ind, q + 1, 0);
    let end = q + 1 + items_lines(items, m, ind, r).len();
    let back = items_back(items, m);
    let none = Seq::<(DataModel, MetadataModel)>::empty();
    assert(none + back =~= back);
    assert forall|x: int| 0 <= x < (none + back).len() implies spec_type_name(#[trigger] (none + back)[x].0) == t by {
        assert((none + back)[x] == back[x]);
        assert(spec_type_name(items[x]) == t);
    }
    lemma_lines_at_bounds(ls, q + 1, items_lines(items, m, ind, r));
    lemma_items_step_field(ls, fl, q, ind, 1, t, sch, an, none, spaces(ind + 2) + "items"@, seq!['\n'], back, end);
    assert(array_fields(ls, fl, end, ind, 2, Some(t), sch, an, none + back) == Ok::<
        (Option<Seq<char>>, Option<HeaderModel>, Option<Seq<char>>, Seq<(DataModel, MetadataModel)>, int),
        TextError,
    >((Some(t), sch, an, back, end)));
    lemma_lines_ok_cat(ls, q, q + 1, end);
}

/// The field lines of an array and its items read back.

#[verifier::spinoff_prover]
#[verifier::rlimit(100)]
pub proof fn lemma_array_fields_back(
    ls: Seq<Seq<char>>,
    fl: Seq<(Seq<char>, Option<u32>)>,
    r: spec_fn(u32) -> Seq<char>,
    d: DataModel,
    m: MetadataModel,
    ind: nat,
    pos: int,
)
    requires
        d is Array,
        data_rt(d, m, r, fl),
        b64s(d, m),
        data_text_ok(d, m, ind),
        lines_at(ls, pos, body_lines(d, m, ind, r)),
        ends_at(ls, pos + body_lines(d, m, ind, r).len(), ind + 1),
    ensures
        array_fields(ls, fl, pos, ind, 0, None, None, None, seq![]) == Ok::<
            (Option<Seq<char>>, Option<HeaderModel>, Option<Seq<char>>, Seq<(DataModel, MetadataModel)>, int),
            TextError,
        >(
            (
                Some(m->Array_0),
                match d->Array_1 {
                    Some((h, _)) => Some(h),
                    None => None,
                },
                match d->Array_1 {
                    Some((_, n)) => Some(n),
                    None => None,
                },
                items_back(d->Array_0, m),
                pos + body_lines(d, m, ind, r).len(),
            ),
        ),
        lines_ok(ls, pos, pos + body_lines(d, m, ind, r).len()),
    decreases d, 0int,
{
    let items = d->Array_0;
    let schema = d->Array_1;
    let t = m->Array_0;
    let pre2 = spaces(ind + 2);
    let l0 = nl(pre2 + "item_type: "@ + t);
    let li = nl(pre2 + "items:"@);
    let il = items_lines(items, m, ind, r);
    let body = body_lines(d, m, ind, r);
    let end = pos + body.len();
    let none = Seq::<(DataModel, MetadataModel)>::empty();
    lemma_array_lits();
    lemma_field_eq(ind + 2, "item_type: "@, "item_type"@, t);
    lemma_one_line3(seq![' '], t, Seq::<char>::empty());
    assert(seq![' '] + t + Seq::<char>::empty() =~= seq![' '] + t);
    assert(all_ws(seq![' ']));
    lemma_value_trim(seq![' '], t);
    assert forall|i: int| 0 <= i < items.len() implies value_ok(#[trigger] items[i], m, r, fl, ind + 4) && spec_type_name(items[i]) == t by {
        reveal(value_ok);
    }
    lemma_ends_weaken(ls, end, ind + 1, ind + 2);
    let it_a = pre2 + "item_type"@;
    let it_b = seq![' '] + t + seq!['\n'];
    match schema {
        None => {
            assert(body == seq![l0, li] + il);
            lemma_lines_at_split(ls, pos, seq![l0, li], il);
            lemma_lines_at_index(ls, pos, seq![l0, li], 0);
            lemma_lines_at_index(ls, pos, seq![l0, li], 1);
            lemma_field(ls, pos, ind + 2, "item_type"@, seq![' '] + t);
            lemma_items_field_back(ls, fl, r, items, m, ind, pos + 1, t, None, None);
            assert(t != "StructProperty"@);
            lemma_item_type_step(ls, fl, pos, ind, 0, None, None, None, none, it_a, it_b);
            lemma_lines_ok_cat(ls, pos, pos + 1, end);
        },
        Some((h, n)) => {
            let s0 = nl(pre2 + "item_schema:"@);
            let s1 = nl(pre2 + "  name: "@ + h.name);
            let s2 = nl(pre2 + "  type: "@ + h.prop_type);
            let s3 = nl(pre2 + "array_name: "@ + n);
            assert(body == seq![l0, s0, s1, s2, s3, li] + il);
            lemma_lines_at_split(ls, pos, seq![l0, s0, s1, s2, s3, li], il);
            let six = seq![l0, s0, s1, s2, s3, li];
            lemma_lines_at_index(ls, pos, six, 0);
            lemma_lines_at_index(ls, pos, six, 1);
            lemma_lines_at_index(ls, pos, six, 2);
            lemma_lines_at_index(ls, pos, six, 3);
            lemma_lines_at_index(ls, pos, six, 4);
            lemma_lines_at_index(ls, pos, six, 5);
            lemma_field(ls, pos, ind + 2, "item_type"@, seq![' '] + t);
            lemma_field_eq0(ind + 2, "item_schema:"@, "item_schema"@);
            lemma_field(ls, pos + 1, ind + 2, "item_schema"@, Seq::<char>::empty());
            lemma_schema_back(ls, pos + 2, ind, h);
            lemma_field_eq(ind + 2, "array_name: "@, "array_name"@, n);
            lemma_one_line3(seq![' '], n, Seq::<char>::empty());
            assert(seq![' '] + n + Seq::<char>::empty() =~= seq![' '] + n);
            lemma_field(ls, pos + 4, ind + 2, "array_name"@, seq![' '] + n);
            lemma_value_trim(seq![' '], n);
            lemma_items_field_back(ls, fl, r, items, m, ind, pos + 5, t, Some(h), Some(n));
            lemma_item_type_step(ls, fl, pos, ind, 0, None, None, None, none, it_a, it_b);
            lemma_item_schema_step(ls, fl, pos + 1, ind, -1, Some(t), None, None, none, pre2 + "item_schema"@, seq!['\n'], h, pos + 4);
            lemma_array_name_step(ls, fl, pos + 4, ind, 0, Some(t), Some(h), None, none, pre2 + "array_name"@, seq![' '] + n + seq!['\n']);
            lemma_lines_ok_cat(ls, pos, pos + 1, pos + 2);
            lemma_lines_ok_cat(ls, pos, pos + 2, pos + 4);
            lemma_lines_ok_cat(ls, pos, pos + 4, pos + 5);
            lemma_lines_ok_cat(ls, pos, pos + 5, end);
        },
    }
}

/// An array value reads back: its head, its field lines and its items.
pub proof fn lemma_array_back(
    ls: Seq<Seq<char>>,
    fl: Seq<(Seq<char>, Option<u32>)>,
    r: spec_fn(u32) -> Seq<char>,
    d: DataModel,
    m: MetadataModel,
    ind: nat,
    pre: Seq<char>,
    pos: int,
)
    requires
        d is Array,
        data_rt(d, m, r, fl),
        b64s(d, m),
        data_text_ok(d, m, ind),
        all_ws(pre),
        lines_at(ls, pos, body_lines(d, m, ind, r)),
        ends_at(ls, pos + body_lines(d, m, ind, r).len(), ind + 1),
    ensures
        parse_value(ls, fl, pre + head(d, m, r) + seq!['\n'], pos, ind) == Ok::<(DataModel, MetadataModel, int), TextError>(
            (d, meta_back(d, m), pos + body_lines(d, m, ind, r).len()),
        ),
        one_line(head(d, m, r)),
        lines_ok(ls, pos, pos + body_lines(d, m, ind, r).len()),
    decreases d, 1int,
{
    let items = d->Array_0;
    lemma_array_fields_back(ls, fl, r, d, m, ind, pos);
    let p_end = pos + body_lines(d, m, ind, r).len();
    match parse_array(ls, fl, pos, ind) {
        Ok((DataModel::Array(vs, sch), mm, pp)) => {
            assert(vs =~= items);
            assert(sch == d->Array_1);
            assert(mm == m);
            assert(pp == p_end);
        },
        _ => {
            assert(false);
        },
    }
    lemma_tag_starts();
    lemma_value_trim(pre, "!Array"@);
    lemma_value_array_step(ls, fl, pre + "!Array"@ + seq!['\n'], pos, ind);
}

/// One step of reading a property.
pub proof fn lemma_prop_step(
    ls: Seq<Seq<char>>,
    fl: Seq<(Seq<char>, Option<u32>)>,
    pos: int,
    ind: nat,
    a: Seq<char>,
    b: Seq<char>,
    name: Seq<char>,
    idx: usize,
    d: DataModel,
    m: MetadataModel,
    p: int,
)
    requires
        0 <= pos < ls.len(),
        next_line(ls, pos) == pos,
        ls[pos].len() > 0,
        indented(ls[pos], ind),
        split_once(ls[pos], ':') == Some((a, b)),
        name_and_index(trim(a)) == Ok::<(Seq<char>, usize), TextError>((name, idx)),
        parse_value(ls, fl, b, pos + 1, ind) == Ok::<(DataModel, MetadataModel, int), TextError>((d, m, p)),
    ensures
        parse_prop(ls, fl, pos, ind) == Ok::<(Option<PropertyModel>, int), TextError>(
            (
                Some(
                    PropertyModel {
                        header: HeaderModel { name: name, prop_type: spec_type_name(d), arr_index: idx },
                        metadata: m,
                        data: d,
                    },
                ),
                p,
            ),
        ),
{
}

/// Reading stops where a list of properties ends.
pub proof fn lemma_prop_none(ls: Seq<Seq<char>>, fl: Seq<(Seq<char>, Option<u32>)>, pos: int, ind: nat)
    requires
        ends_at(ls, pos, ind),
    ensures
        parse_prop(ls, fl, pos, ind) == Ok::<(Option<PropertyModel>, int), TextError>((None, pos)),
        parse_props(ls, fl, pos, ind) == Ok::<(Seq<PropertyModel>, int), TextError>((seq![], pos)),
{
    lemma_end(ls, pos, ind);
}

/// One step of reading properties.
pub proof fn lemma_props_step(
    ls: Seq<Seq<char>>,
    fl: Seq<(Seq<char>, Option<u32>)>,
    pos: int,
    ind: nat,
    prop: PropertyModel,
    p: int,
    rest: Seq<PropertyModel>,
    q: int,
)
    requires
        parse_prop(ls, fl, pos, ind) == Ok::<(Option<PropertyModel>, int), TextError>((Some(prop), p)),
        pos < p <= ls.len(),
        parse_props(ls, fl, p, ind) == Ok::<(Seq<PropertyModel>, int), TextError>((rest, q)),
    ensures
        parse_props(ls, fl, pos, ind) == Ok::<(Seq<PropertyModel>, int), TextError>((seq![prop] + rest, q)),
{
}

/// Reading stops where a list of array items ends.
pub proof fn lemma_items_none(ls: Seq<Seq<char>>, fl: Seq<(Seq<char>, Option<u32>)>, pos: int, ind: nat)
    requires
        ends_at(ls, pos, ind + 2),
    ensures
        array_items(ls, fl, pos, ind) == Ok::<(Seq<(DataModel, MetadataModel)>, int), TextError>((seq![], pos)),
{
    lemma_end(ls, pos, ind + 2);
    if pos == ls.len() {
        assert(trim(line_at(ls, pos)) =~= Seq::<char>::empty());
    }
}

/// One step of reading array items.
pub proof fn lemma_items_step(
    ls: Seq<Seq<char>>,
    fl: Seq<(Seq<char>, Option<u32>)>,
    pos: int,
    ind: nat,
    x: Seq<char>,
    v: Seq<char>,
    d: DataModel,
    m: MetadataModel,
    p: int,
    more: Seq<(DataModel, MetadataModel)>,
    q: int,
)
    requires
        item_at(ls, pos, ind, x, v),
        parse_value(ls, fl, v, pos + 1, ind + 4) == Ok::<(DataModel, MetadataModel, int), TextError>((d, m, p)),
        pos < p <= ls.len(),
        array_items(ls, fl, p, ind) == Ok::<(Seq<(DataModel, MetadataModel)>, int), TextError>((more, q)),
    ensures
        array_items(ls, fl, pos, ind) == Ok::<(Seq<(DataModel, MetadataModel)>, int), TextError>(
            (seq![(d, m)] + more, q),
        ),
{
    reveal(item_at);
}

/// Reading stops where a list of map entries ends.
pub proof fn lemma_entries_none(ls: Seq<Seq<char>>, fl: Seq<(Seq<char>, Option<u32>)>, pos: int, ind: nat, kt: Seq<char>)
    requires
        ends_at(ls, pos, ind + 4),
    ensures
        map_entries(ls, fl, pos, ind, kt) == Ok::<(Seq<(DataModel, DataModel, MetadataModel)>, int), TextError>(
            (seq![], pos),
        ),
{
    lemma_end(ls, pos, ind + 4);
    if pos == ls.len() {
        assert(trim(line_at(ls, pos)) =~= Seq::<char>::empty());
    }
}

/// One step of reading map entries.
pub proof fn lemma_entries_step(
    ls: Seq<Seq<char>>,
    fl: Seq<(Seq<char>, Option<u32>)>,
    pos: int,
    ind: nat,
    kt: Seq<char>,
    rest: Seq<char>,
    kx: Seq<char>,
    v: Seq<char>,
    key: DataModel,
    d: DataModel,
    m: MetadataModel,
    p: int,
    more: Seq<(DataModel, DataModel, MetadataModel)>,
    q: int,
)
    requires
        entry_at(ls, pos, ind, rest, kx, v),
        map_key(fl, trim(kx), kt) == Ok::<DataModel, TextError>(key),
        parse_value(ls, fl, v, pos + 1, ind + 6) == Ok::<(DataModel, MetadataModel, int), TextError>((d, m, p)),
        pos < p <= ls.len(),
        map_entries(ls, fl, p, ind, kt) == Ok::<(Seq<(DataModel, DataModel, MetadataModel)>, int), TextError>(
            (more, q),
        ),
    ensures
        map_entries(ls, fl, pos, ind, kt) == Ok::<(Seq<(DataModel, DataModel, MetadataModel)>, int), TextError>(
            (seq![(key, d, m)] + more, q),
        ),
{
    reveal(entry_at);
}

/// How the tags of maps and arrays start.
pub proof fn lemma_tag_starts()
    ensures
        "!Map"@.len() == 4,
        "!Array"@.len() == 6,
        !starts_with("!Map"@, "!struct"@),
        starts_with("!Map"@, "!Map"@),
        !starts_with("!Array"@, "!struct"@),
        !starts_with("!Array"@, "!Map"@),
        starts_with("!Array"@, "!Array"@),
        is_trimmed("!Map"@),
        is_trimmed("!Array"@),
        one_line("!Map"@),
        one_line("!Array"@),
{
    lemma_tags();
    lemma_starts("!Map"@, Seq::<char>::empty());
    assert("!Map"@ + Seq::<char>::empty() =~= "!Map"@);
    lemma_starts("!Array"@, Seq::<char>::empty());
    assert("!Array"@ + Seq::<char>::empty() =~= "!Array"@);
    lemma_not_starts("!Array"@, "!Map"@, 1);
}

/// Reading a value whose text is `!Map`.
pub proof fn lemma_value_map_step(ls: Seq<Seq<char>>, fl: Seq<(Seq<char>, Option<u32>)>, val: Seq<char>, pos: int, ind: nat)
    requires
        trim(val) == "!Map"@,
        !starts_with("!Map"@, "!struct"@),
        starts_with("!Map"@, "!Map"@),
        "!Map"@.len() == 4,
    ensures
        parse_value(ls, fl, val, pos, ind) == parse_map(ls, fl, pos, ind),
{
}

/// Reading a value whose text is `!Array`.
pub proof fn lemma_value_array_step(ls: Seq<Seq<char>>, fl: Seq<(Seq<char>, Option<u32>)>, val: Seq<char>, pos: int, ind: nat)
    requires
        trim(val) == "!Array"@,
        !starts_with("!Array"@, "!struct"@),
        !starts_with("!Array"@, "!Map"@),
        starts_with("!Array"@, "!Array"@),
        "!Array"@.len() == 6,
    ensures
        parse_value(ls, fl, val, pos, ind) == parse_array(ls, fl, pos, ind),
{
}


/// The field names differ from each other.
pub proof fn lemma_names_differ()
    ensures
        "key_type"@ != "val_type"@,
        "map_data"@ != "key_type"@,
        "map_data"@ != "val_type"@,
        "type"@ != "name"@,
        "item_schema"@ != "item_type"@,
        "array_name"@ != "item_type"@,
        "array_name"@ != "item_schema"@,
        "items"@ != "item_type"@,
        "items"@ != "item_schema"@,
        "items"@ != "array_name"@,
{
    reveal_strlit("item_type");
    reveal_strlit("key_type");
    reveal_strlit("val_type");
    reveal_strlit("array_name");
    reveal_strlit("name");
    reveal_strlit("type");
    reveal_strlit("item_schema");
    reveal_strlit("items");
    reveal_strlit("map_data");
    assert("key_type"@[0] != "val_type"@[0]);
    assert("map_data"@[0] != "key_type"@[0]);
    assert("map_data"@[0] != "val_type"@[0]);
    assert("type"@[0] != "name"@[0]);
    assert("item_schema"@.len() != "item_type"@.len());
    assert("array_name"@.len() != "item_type"@.len());
    assert("array_name"@.len() != "item_schema"@.len());
    assert("items"@.len() != "item_type"@.len());
    assert("items"@.len() != "item_schema"@.len());
    assert("items"@.len() != "array_name"@.len());
}

/// The facts about a field line that a field step needs.
#[verifier::opaque]
pub open spec fn field_at(ls: Seq<Seq<char>>, pos: int, n: nat, a: Seq<char>, b: Seq<char>) -> bool {
    &&& 0 <= pos < ls.len()
    &&& next_line(ls, pos) == pos
    &&& indented(ls[pos], n)
    &&& split_once(ls[pos], ':') == Some((a, b))
}

/// A map's `key_type` line.
pub proof fn lemma_key_type_step(
    ls: Seq<Seq<char>>,
    fl: Seq<(Seq<char>, Option<u32>)>,
    pos: int,
    ind: nat,
    k: nat,
    kt: Option<Seq<char>>,
    vt: Option<Seq<char>>,
    sets: Seq<(DataModel, DataModel, MetadataModel)>,
    a: Seq<char>,
    b: Seq<char>,
)
    requires
        k > 0,
        field_at(ls, pos, ind + 2, a, b),
        trim(a) == "key_type"@,
    ensures
        map_fields(ls, fl, pos, ind, k, kt, vt, sets) == map_fields(ls, fl, pos + 1, ind, (k - 1) as nat, Some(trim(b)), vt, sets),
{
    reveal(field_at);
}

/// A map's `val_type` line.
pub proof fn lemma_val_type_step(
    ls: Seq<Seq<char>>,
    fl: Seq<(Seq<char>, Option<u32>)>,
    pos: int,
    ind: nat,
    k: nat,
    kt: Option<Seq<char>>,
    vt: Option<Seq<char>>,
    sets: Seq<(DataModel, DataModel, MetadataModel)>,
    a: Seq<char>,
    b: Seq<char>,
)
    requires
        k > 0,
        field_at(ls, pos, ind + 2, a, b),
        trim(a) == "val_type"@,
    ensures
        map_fields(ls, fl, pos, ind, k, kt, vt, sets) == map_fields(ls, fl, pos + 1, ind, (k - 1) as nat, kt, Some(trim(b)), sets),
{
    reveal(field_at);
    lemma_names_differ();
}

/// A map's `map_data` line and its entries.
pub proof fn lemma_map_data_step(
    ls: Seq<Seq<char>>,
    fl: Seq<(Seq<char>, Option<u32>)>,
    pos: int,
    ind: nat,
    k: nat,
    kt: Seq<char>,
    vt: Seq<char>,
    sets: Seq<(DataModel, DataModel, MetadataModel)>,
    a: Seq<char>,
    b: Seq<char>,
    more: Seq<(DataModel, DataModel, MetadataModel)>,
    p: int,
)
    requires
        k > 0,
        field_at(ls, pos, ind + 2, a, b),
        trim(a) == "map_data"@,
        map_entries(ls, fl, pos + 1, ind, kt) == Ok::<(Seq<(DataModel, DataModel, MetadataModel)>, int), TextError>(
            (more, p),
        ),
        pos < p <= ls.len(),
        forall|i: int| 0 <= i < (sets + more).len() ==> spec_type_name(#[trigger] (sets + more)[i].1) == vt,
    ensures
        map_fields(ls, fl, pos, ind, k, Some(kt), Some(vt), sets) == map_fields(ls, fl, p, ind, (k - 1) as nat, Some(kt), Some(vt), sets + more),
{
    reveal(field_at);
    lemma_names_differ();
    let all = sets + more;
    assert(!(exists|i: int| 0 <= i < all.len() && spec_type_name(#[trigger] all[i].1) != vt));
}

/// The `name` line of an item schema.
pub proof fn lemma_schema_name_step(
    ls: Seq<Seq<char>>,
    pos: int,
    ind: nat,
    k: nat,
    name: Option<Seq<char>>,
    ty: Option<Seq<char>>,
    a: Seq<char>,
    b: Seq<char>,
)
    requires
        k > 0,
        field_at(ls, pos, ind + 4, a, b),
        trim(a) == "name"@,
    ensures
        schema_fields(ls, pos, ind, k, name, ty) == schema_fields(ls, pos + 1, ind, (k - 1) as nat, Some(trim(b)), ty),
{
    reveal(field_at);
}

/// The `type` line of an item schema.
pub proof fn lemma_schema_type_step(
    ls: Seq<Seq<char>>,
    pos: int,
    ind: nat,
    k: nat,
    name: Option<Seq<char>>,
    ty: Option<Seq<char>>,
    a: Seq<char>,
    b: Seq<char>,
)
    requires
        k > 0,
        field_at(ls, pos, ind + 4, a, b),
        trim(a) == "type"@,
    ensures
        schema_fields(ls, pos, ind, k, name, ty) == schema_fields(ls, pos + 1, ind, (k - 1) as nat, name, Some(trim(b))),
{
    reveal(field_at);
    lemma_names_differ();
}

/// An array's `item_type` line.
pub proof fn lemma_item_type_step(
    ls: Seq<Seq<char>>,
    fl: Seq<(Seq<char>, Option<u32>)>,
    pos: int,
    ind: nat,
    i: int,
    it: Option<Seq<char>>,
    sch: Option<HeaderModel>,
    an: Option<Seq<char>>,
    items: Seq<(DataModel, MetadataModel)>,
    a: Seq<char>,
    b: Seq<char>,
)
    requires
        i < 2,
        field_at(ls, pos, ind + 2, a, b),
        trim(a) == "item_type"@,
    ensures
        array_fields(ls, fl, pos, ind, i, it, sch, an, items) == array_fields(
            ls,
            fl,
            pos + 1,
            ind,
            if trim(b) == "StructProperty"@ {
                i - 1
            } else {
                i + 1
            },
            Some(trim(b)),
            sch,
            an,
            items,
        ),
{
    reveal(field_at);
}

/// An array's `item_schema` line and its schema.
pub proof fn lemma_item_schema_step(
    ls: Seq<Seq<char>>,
    fl: Seq<(Seq<char>, Option<u32>)>,
    pos: int,
    ind: nat,
    i: int,
    it: Option<Seq<char>>,
    sch: Option<HeaderModel>,
    an: Option<Seq<char>>,
    items: Seq<(DataModel, MetadataModel)>,
    a: Seq<char>,
    b: Seq<char>,
    h: HeaderModel,
    p: int,
)
    requires
        i < 2,
        field_at(ls, pos, ind + 2, a, b),
        trim(a) == "item_schema"@,
        parse_schema(ls, pos + 1, ind) == Ok::<(HeaderModel, int), TextError>((h, p)),
        pos < p <= ls.len(),
    ensures
        array_fields(ls, fl, pos, ind, i, it, sch, an, items) == array_fields(ls, fl, p, ind, i + 1, it, Some(h), an, items),
{
    reveal(field_at);
    lemma_names_differ();
}

/// An array's `array_name` line.
pub proof fn lemma_array_name_step(
    ls: Seq<Seq<char>>,
    fl: Seq<(Seq<char>, Option<u32>)>,
    pos: int,
    ind: nat,
    i: int,
    it: Option<Seq<char>>,
    sch: Option<HeaderModel>,
    an: Option<Seq<char>>,
    items: Seq<(DataModel, MetadataModel)>,
    a: Seq<char>,
    b: Seq<char>,
)
    requires
        i < 2,
        field_at(ls, pos, ind + 2, a, b),
        trim(a) == "array_name"@,
    ensures
        array_fields(ls, fl, pos, ind, i, it, sch, an, items) == array_fields(ls, fl, pos + 1, ind, i + 1, it, sch, Some(trim(b)), items),
{
    reveal(field_at);
    lemma_names_differ();
}

/// An array's `items` line and its items.
#[verifier::spinoff_prover]
#[verifier::rlimit(60)]
pub proof fn lemma_items_step_field(
    ls: Seq<Seq<char>>,
    fl: Seq<(Seq<char>, Option<u32>)>,
    pos: int,
    ind: nat,
    i: int,
    t: Seq<char>,
    sch: Option<HeaderModel>,
    an: Option<Seq<char>>,
    items: Seq<(DataModel, MetadataModel)>,
    a: Seq<char>,
    b: Seq<char>,
    more: Seq<(DataModel, MetadataModel)>,
    p: int,
)
    requires
        i < 2,
        field_at(ls, pos, ind + 2, a, b),
        trim(a) == "items"@,
        array_items(ls, fl, pos + 1, ind) == Ok::<(Seq<(DataModel, MetadataModel)>, int), TextError>((more, p)),
        pos < p <= ls.len(),
        forall|x: int| 0 <= x < (items + more).len() ==> spec_type_name(#[trigger] (items + more)[x].0) == t,
    ensures
        array_fields(ls, fl, pos, ind, i, Some(t), sch, an, items) == array_fields(ls, fl, p, ind, i + 1, Some(t), sch, an, items + more),
{
    reveal(field_at);
    lemma_names_differ();
    let all = items + more;
    assert(!(exists|x: int| 0 <= x < all.len() && spec_type_name(#[trigger] all[x].0) != t));
}



/// Reading an object: its summary line, its `contents:` line, and its
/// properties.
pub proof fn lemma_object_step(
    ls: Seq<Seq<char>>,
    fl: Seq<(Seq<char>, Option<u32>)>,
    a: Seq<char>,
    b: Seq<char>,
    s: SummaryModel,
    props: Seq<PropertyModel>,
    p: int,
)
    requires
        starts_with(line_at(ls, 0), "summary:"@),
        split_once(line_at(ls, 0), ':') == Some((a, b)),
        summary_from_text(trim(b)) == Ok::<SummaryModel, TextError>(s),
        starts_with(line_at(ls, 1), "contents:"@),
        parse_props(ls, fl, 2, 2) == Ok::<(Seq<PropertyModel>, int), TextError>((props, p)),
    ensures
        parse_object_text(ls, fl) == Ok::<ObjectModel, TextError>(ObjectModel { summary: s, properties: props }),
{
}

/// The base64 text of a summary's bytes reads back as the summary.
pub proof fn lemma_summary_text(s: SummaryModel)
    requires
        summary_roundtrips(s),
        b64_ok(summary_bytes(s)),
    ensures
        summary_from_text(base64_encoded(summary_bytes(s))) == Ok::<SummaryModel, TextError>(unpadded(s)),
{
    lemma_summary_roundtrip(s);
}

/// The literal that starts an object's summary line.
pub proof fn lemma_summary_lits()
    ensures
        "summary: "@ == "summary"@ + seq![':', ' '],
        "summary:"@ == "summary"@ + seq![':'],
        lacks("summary"@, ':'),
        one_line("summary"@),
{
    reveal_strlit("summary: ");
    reveal_strlit("summary:");
    reveal_strlit("summary");
    assert("summary: "@ =~= "summary"@ + seq![':', ' ']);
    assert("summary:"@ =~= "summary"@ + seq![':']);
}

/// A line `tag: x`, where `tag` has no colon, splits at the colon after
/// `tag`.
pub proof fn lemma_tag_split(tag: Seq<char>, x: Seq<char>)
    requires
        lacks(tag, ':'),
    ensures
        split_once(nl(tag + seq![':'] + (seq![' '] + x)), ':') == Some((tag, seq![' '] + x + seq!['\n'])),
{
    lemma_split_nl(tag, ':', seq![' '] + x);
}

/// A line `tag: x` starts with `tag:`.
pub proof fn lemma_tag_prefix(tag: Seq<char>, x: Seq<char>)
    ensures
        starts_with(nl(tag + seq![':'] + (seq![' '] + x)), tag + seq![':']),
{
    lemma_starts(tag + seq![':'], seq![' '] + x + seq!['\n']);
    assert(nl(tag + seq![':'] + (seq![' '] + x)) =~= tag + seq![':'] + (seq![' '] + x + seq!['\n']));
}

/// A line `tag: x` is well-formed where `tag` and `x` are one line.
pub proof fn lemma_tag_is_line(tag: Seq<char>, x: Seq<char>)
    requires
        one_line(tag),
        one_line(x),
    ensures
        is_line(nl(tag + seq![':'] + (seq![' '] + x))),
{
    lemma_one_line3(tag, seq![':'], Seq::<char>::empty());
    assert(tag + seq![':'] + Seq::<char>::empty() =~= tag + seq![':']);
    lemma_one_line3(tag + seq![':'], seq![' '], x);
    lemma_is_line(0, tag + seq![':'] + seq![' '] + x);
    assert(nl(spaces(0) + (tag + seq![':'] + seq![' '] + x)) =~= nl(tag + seq![':'] + (seq![' '] + x)));
}

/// A word after a space and before a line break reads back as the word.
pub proof fn lemma_word_trim(x: Seq<char>)
    requires
        no_ws(x),
    ensures
        trim(seq![' '] + x + seq!['\n']) == x,
{
    if x.len() > 0 {
        assert(x.last() == x[x.len() - 1]);
    }
    assert(all_ws(seq![' ']));
    lemma_value_trim(seq![' '], x);
}

/// The `contents:` line of an object's text.
pub proof fn lemma_contents_line()
    ensures
        starts_with(nl("contents:"@), "contents:"@),
        is_line(nl("contents:"@)),
{
    reveal_strlit("contents:");
    lemma_starts("contents:"@, seq!['\n']);
    lemma_is_line(0, "contents:"@);
    assert(nl(spaces(0) + "contents:"@) =~= nl("contents:"@));
}

/// The lines of an object's text are well-formed and read back as the
/// object.
#[verifier::spinoff_prover]
#[verifier::rlimit(60)]
pub proof fn lemma_object_back(o: ObjectModel, r: spec_fn(u32) -> Seq<char>, fl: Seq<(Seq<char>, Option<u32>)>)
    requires
        object_text_ok(o),
        summary_roundtrips(o.summary),
        b64_ok(summary_bytes(o.summary)),
        forall|i: int|
            0 <= i < o.properties.len() ==> prop_rt(#[trigger] o.properties[i], r, fl) && b64s(
                o.properties[i].data,
                o.properties[i].metadata,
            ),
    ensures
        parse_object_text(object_lines(o, r), fl) == Ok::<ObjectModel, TextError>(unpadded_object(o)),
        forall|i: int| 0 <= i < object_lines(o, r).len() ==> is_line(#[trigger] object_lines(o, r)[i]),
{
    let ls = object_lines(o, r);
    let l0 = nl("summary: "@ + base64_encoded(summary_bytes(o.summary)));
    let l1 = nl("contents:"@);
    let ps = props_lines(o.properties, 2, r);
    assert(ls == seq![l0, l1] + ps);
    lemma_lines_at_whole(ls);
    lemma_lines_at_split(ls, 0, seq![l0, l1], ps);
    lemma_ends_at_len(ls, 2);
    assert(forall|i: int|
        0 <= i < o.properties.len() ==> prop_rt(#[trigger] o.properties[i], r, fl) && b64s(
            o.properties[i].data,
            o.properties[i].metadata,
        ) && prop_text_ok(o.properties[i], 2));
    lemma_props_back(ls, fl, r, o.properties, 2, 2);
    let x = base64_encoded(summary_bytes(o.summary));
    lemma_b64_word(summary_bytes(o.summary));
    lemma_summary_lits();
    lemma_tag_split("summary"@, x);
    lemma_tag_prefix("summary"@, x);
    lemma_tag_is_line("summary"@, x);
    lemma_word_trim(x);
    assert(l0 == nl("summary"@ + seq![':'] + (seq![' '] + x))) by {
        assert(l0 =~= nl("summary"@ + seq![':'] + (seq![' '] + x)));
    }
    lemma_summary_text(o.summary);
    lemma_contents_line();
    assert(line_at(ls, 0) == l0 && line_at(ls, 1) == l1);
    lemma_object_step(
        ls,
        fl,
        "summary"@,
        seq![' '] + base64_encoded(summary_bytes(o.summary)) + seq!['\n'],
        unpadded(o.summary),
        o.properties,
        2 + ps.len() as int,
    );
    lemma_lines_ok_one(ls, 0);
    lemma_lines_ok_one(ls, 1);
    lemma_lines_ok_cat(ls, 0, 1, 2);
    lemma_lines_ok_cat(ls, 0, 2, ls.len() as int);
    assert forall|i: int| 0 <= i < ls.len() implies is_line(#[trigger] ls[i]) by {
        lemma_lines_ok_at(ls, 0, ls.len() as int, i);
    }
}

/// What reading text back needs of an object's names, types and values,
/// with floats written by `r` and read through the table `fl`.
pub open spec fn text_roundtrips(o: ObjectModel, r: spec_fn(u32) -> Seq<char>, fl: Seq<(Seq<char>, Option<u32>)>) -> bool {
    &&& summary_roundtrips(o.summary)
    &&& forall|i: int| 0 <= i < o.properties.len() ==> prop_rt(#[trigger] o.properties[i], r, fl)
}

/// Reading an object's text back gives the object: writing it, with its
/// floats written by `r`, splitting the text into lines and reading them
/// with a float table `fl` that reads each written float back, gives the
/// object, its summary's padding read as zero, where the base64 encoder gave back what it was given for the
/// summary's bytes and for each struct's bytes.
pub proof fn lemma_text_roundtrip(o: ObjectModel, r: spec_fn(u32) -> Seq<char>, fl: Seq<(Seq<char>, Option<u32>)>)
    requires
        object_text_ok(o),
        text_roundtrips(o, r, fl),
        b64_ok(summary_bytes(o.summary)),
        forall|i: int| 0 <= i < o.properties.len() ==> b64s((#[trigger] o.properties[i]).data, o.properties[i].metadata),
    ensures
        parse_object_text(lines(flat(object_text(o), r)), fl) == Ok::<ObjectModel, TextError>(unpadded_object(o)),
{
    lemma_object_back(o, r, fl);
    lemma_object_flat(o, r);
    lemma_lines_join(object_lines(o, r));
}



} // verus!
