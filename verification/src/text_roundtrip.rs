//! Reading back what the text writer wrote.

use crate::b64::{base64_decoded, base64_encoded, is_base64_char};
use crate::chars::{indented, is_ws, replace, split_once, starts_with, trim, words};
use crate::numtext::{dec, hex, signed_dec};
use crate::text_facts::{
    clean, is_line, is_trimmed, lead_spaces, lemma_clean_line, lemma_lead_spaces, lemma_parse_dec,
    lemma_parse_hex, lemma_parse_signed_dec, lemma_radix_value, lemma_split_at, lemma_trim_pad,
    lemma_unescape_escape, lemma_unescape_plain, lemma_arrows_back, lemma_words_cons, lemma_words_single, no_arrow,
    no_escape, no_ws, all_ws,
};
use crate::text_format::{escape_newlines, spaces};
use crate::text_lines::{body_lines, head, key_chars, name_part, nl};
use crate::text_parse::{
    after_space, float_of, parse_value, scalar_value, string_value, tagged_int, unescape_newlines,
    TextError,
};
use crate::types::{spec_type_name, DataModel, MetadataModel, PropertyKind};
use vstd::prelude::*;
use vstd::utf8::encode_utf8;

verus! {

/// `s` has no line break.
pub open spec fn one_line(s: Seq<char>) -> bool {
    forall|i: int| 0 <= i < s.len() ==> s[i] != '\n'
}

/// `s` has no `c`.
pub open spec fn lacks(s: Seq<char>, c: char) -> bool {
    forall|i: int| 0 <= i < s.len() ==> s[i] != c
}

/// Text that reads back from after a colon: one line, no surrounding
/// whitespace.
pub open spec fn plain(s: Seq<char>) -> bool {
    one_line(s) && is_trimmed(s)
}

/// A single word of one line.
pub open spec fn word(s: Seq<char>) -> bool {
    s.len() > 0 && no_ws(s) && one_line(s)
}

/// `r(b)` reads back as the float `b` through the table.
pub open spec fn float_back(r: spec_fn(u32) -> Seq<char>, fl: Seq<(Seq<char>, Option<u32>)>, b: u32) -> bool {
    let t = r(b);
    &&& t.len() > 0
    &&& plain(t)
    &&& t[0] != '!'
    &&& lacks(t, ':')
    &&& float_of(fl, t) == Some(b)
}

/// What the base64 encoder guarantees of its output for `x`.
pub open spec fn b64_ok(x: Seq<u8>) -> bool {
    let t = base64_encoded(x);
    &&& base64_decoded(encode_utf8(t)) == Some(x)
    &&& t.len() == 4 * ((x.len() + 2) / 3)
    &&& forall|i: int| 0 <= i < t.len() ==> is_base64_char(#[trigger] t[i])
}

/// A value, written under metadata `m`, reads back: the conditions on its
/// texts under which reading gives the same value.
pub open spec fn data_rt(d: DataModel, m: MetadataModel, r: spec_fn(u32) -> Seq<char>, fl: Seq<(Seq<char>, Option<u32>)>) -> bool
    decreases d,
{
    match d {
        DataModel::Array(items, schema) => match m {
            MetadataModel::Array(t) => {
                &&& plain(t)
                &&& (t == "StructProperty"@ <==> schema is Some)
                &&& match schema {
                    Some((h, n)) => plain(h.name) && plain(h.prop_type) && plain(n) && h.arr_index == 0,
                    None => true,
                }
                &&& forall|i: int|
                    0 <= i < items.len() ==> spec_type_name(#[trigger] items[i]) == t && data_rt(items[i], m, r, fl)
            },
            _ => false,
        },
        DataModel::Bool => float_of(fl, "true"@) is None && float_of(fl, "false"@) is None,
        DataModel::Byte(_) => true,
        DataModel::Enum(s) => match m {
            MetadataModel::Enum(n) => word(n) && word(replace(s, "::"@, "->"@)) && no_arrow(s),
            _ => false,
        },
        DataModel::Struct(props, raw) => {
            &&& match m {
                MetadataModel::Struct(data) => data.len() > 0,
                _ => raw.len() == 0,
            }
            &&& forall|i: int| 0 <= i < props.len() ==> prop_rt(#[trigger] props[i], r, fl)
        },
        DataModel::Float(b) => float_back(r, fl, b),
        DataModel::String(s) => s.len() > 0 ==> {
            &&& no_escape(s)
            &&& float_of(fl, "\""@ + escape_newlines(s) + "\""@) is None
        },
        DataModel::StringUtf16(s) => {
            &&& no_escape(s)
            &&& escape_newlines(s).len() > 0
            &&& !is_ws(escape_newlines(s).last())
        },
        DataModel::MapEntries(pairs) => match m {
            MetadataModel::MapTypes(k, v) => {
                &&& plain(k)
                &&& plain(v)
                &&& pairs.len() > 0
                &&& forall|i: int|
                    0 <= i < pairs.len() ==> key_rt(#[trigger] pairs[i].0, k, r, fl) && spec_type_name(pairs[i].1)
                        == v && data_rt(pairs[i].1, m, r, fl)
            },
            _ => false,
        },
        DataModel::Name(s) => s.len() > 0 && one_line(s) && !is_ws(s.last()),
        _ => true,
    }
}

/// The base64 encoder's guarantees hold for the metadata and raw bytes of
/// every struct in a value that has struct metadata.
pub open spec fn b64s(d: DataModel, m: MetadataModel) -> bool
    decreases d,
{
    match d {
        DataModel::Array(items, _) => forall|i: int| 0 <= i < items.len() ==> b64s(#[trigger] items[i], m),
        DataModel::Struct(props, raw) => {
            &&& (m matches MetadataModel::Struct(data) ==> b64_ok(data) && b64_ok(raw))
            &&& forall|i: int| 0 <= i < props.len() ==> b64s((#[trigger] props[i]).data, props[i].metadata)
        },
        DataModel::MapEntries(pairs) => forall|i: int| 0 <= i < pairs.len() ==> b64s((#[trigger] pairs[i]).1, m),
        _ => true,
    }
}

/// A map key reads back under the map's key type.
pub open spec fn key_rt(k: DataModel, key_type: Seq<char>, r: spec_fn(u32) -> Seq<char>, fl: Seq<(Seq<char>, Option<u32>)>) -> bool {
    &&& plain(key_chars(k, r))
    &&& lacks(key_chars(k, r), ':')
    &&& match k {
        DataModel::Int32(_) => crate::types::kind_of(key_type) == PropertyKind::IntProperty,
        DataModel::UInt16(_) => crate::types::kind_of(key_type) == PropertyKind::UInt16Property,
        DataModel::String(_) => crate::types::kind_of(key_type) == PropertyKind::StrProperty,
        DataModel::Float(b) => crate::types::kind_of(key_type) == PropertyKind::FloatProperty
            && float_of(fl, r(b)) == Some(b),
        DataModel::Byte(_) => crate::types::kind_of(key_type) == PropertyKind::ByteProperty,
        DataModel::Enum(s) => crate::types::kind_of(key_type) == PropertyKind::EnumProperty && no_arrow(s),
        _ => false,
    }
}

/// The metadata that reading a value's text gives.
pub open spec fn meta_back(d: DataModel, m: MetadataModel) -> MetadataModel {
    match d {
        DataModel::Array(..) | DataModel::Bool | DataModel::Enum(..) | DataModel::MapEntries(..) => m,
        DataModel::Byte(_) => match m {
            MetadataModel::Byte(..) => m,
            _ => MetadataModel::Byte(0, 0),
        },
        DataModel::Struct(..) => match m {
            MetadataModel::Struct(..) => m,
            _ => MetadataModel::Empty,
        },
        _ => MetadataModel::Empty,
    }
}

/// A property reads back: a plain name without `:` or `[`, a type name that
/// is its value's, metadata as reading gives it, and a value that reads
/// back.
pub open spec fn prop_rt(p: crate::types::PropertyModel, r: spec_fn(u32) -> Seq<char>, fl: Seq<(Seq<char>, Option<u32>)>) -> bool
    decreases p,
{
    &&& plain(p.header.name)
    &&& lacks(p.header.name, ':')
    &&& lacks(p.header.name, '[')
    &&& p.header.prop_type == spec_type_name(p.data)
    &&& p.metadata == meta_back(p.data, p.metadata)
    &&& data_rt(p.data, p.metadata, r, fl)
}

/// The characters of the tags and literals that heads start with.
pub proof fn lemma_tags()
    ensures
        "!struct"@ == seq!['!', 's', 't', 'r', 'u', 'c', 't'],
        "!Map"@ == seq!['!', 'M', 'a', 'p'],
        "!Array"@ == seq!['!', 'A', 'r', 'r', 'a', 'y'],
        "!u16"@ == seq!['!', 'u', '1', '6'],
        "!u32"@ == seq!['!', 'u', '3', '2'],
        "!i8"@ == seq!['!', 'i', '8'],
        "!i16"@ == seq!['!', 'i', '1', '6'],
        "!i32"@ == seq!['!', 'i', '3', '2'],
        "!ByteProperty"@ == seq!['!', 'B', 'y', 't', 'e', 'P', 'r', 'o', 'p', 'e', 'r', 't', 'y'],
        "!EnumProperty"@ == seq!['!', 'E', 'n', 'u', 'm', 'P', 'r', 'o', 'p', 'e', 'r', 't', 'y'],
        "!utf16"@ == seq!['!', 'u', 't', 'f', '1', '6'],
        "!EmptyString"@ == seq!['!', 'E', 'm', 'p', 't', 'y', 'S', 't', 'r', 'i', 'n', 'g'],
        "!name"@ == seq!['!', 'n', 'a', 'm', 'e'],
        "true"@ == seq!['t', 'r', 'u', 'e'],
        "false"@ == seq!['f', 'a', 'l', 's', 'e'],
        "\""@ == seq!['"'],
        "!u16 "@ == "!u16"@ + seq![' '],
        "!u32 "@ == "!u32"@ + seq![' '],
        "!i8 "@ == "!i8"@ + seq![' '],
        "!i16 "@ == "!i16"@ + seq![' '],
        "!i32 "@ == "!i32"@ + seq![' '],
        "!utf16 "@ == "!utf16"@ + seq![' '],
        "!name "@ == "!name"@ + seq![' '],
        "!ByteProperty "@ == "!ByteProperty"@ + seq![' '],
        "!EnumProperty "@ == "!EnumProperty"@ + seq![' '],
        "!struct "@ == "!struct"@ + seq![' '],
        " "@ == seq![' '],
{
    reveal_strlit("!struct");
    reveal_strlit("!Map");
    reveal_strlit("!Array");
    reveal_strlit("!u16");
    reveal_strlit("!u32");
    reveal_strlit("!i8");
    reveal_strlit("!i16");
    reveal_strlit("!i32");
    reveal_strlit("!ByteProperty");
    reveal_strlit("!EnumProperty");
    reveal_strlit("!utf16");
    reveal_strlit("!EmptyString");
    reveal_strlit("!name");
    reveal_strlit("true");
    reveal_strlit("false");
    reveal_strlit("\"");
    reveal_strlit("!u16 ");
    reveal_strlit("!u32 ");
    reveal_strlit("!i8 ");
    reveal_strlit("!i16 ");
    reveal_strlit("!i32 ");
    reveal_strlit("!utf16 ");
    reveal_strlit("!name ");
    reveal_strlit("!ByteProperty ");
    reveal_strlit("!EnumProperty ");
    reveal_strlit("!struct ");
    reveal_strlit(" ");
    assert("!u16 "@ =~= "!u16"@ + seq![' ']);
    assert("!u32 "@ =~= "!u32"@ + seq![' ']);
    assert("!i8 "@ =~= "!i8"@ + seq![' ']);
    assert("!i16 "@ =~= "!i16"@ + seq![' ']);
    assert("!i32 "@ =~= "!i32"@ + seq![' ']);
    assert("!utf16 "@ =~= "!utf16"@ + seq![' ']);
    assert("!name "@ =~= "!name"@ + seq![' ']);
    assert("!ByteProperty "@ =~= "!ByteProperty"@ + seq![' ']);
    assert("!EnumProperty "@ =~= "!EnumProperty"@ + seq![' ']);
    assert("!struct "@ =~= "!struct"@ + seq![' ']);
}

/// `t` starts with `p` where `t` is `p` followed by more.
pub proof fn lemma_starts(p: Seq<char>, rest: Seq<char>)
    ensures
        starts_with(p + rest, p),
{
    assert((p + rest).take(p.len() as int) =~= p);
}

/// `t` does not start with `p` where they differ at `i`.
pub proof fn lemma_not_starts(t: Seq<char>, p: Seq<char>, i: int)
    requires
        0 <= i < p.len(),
        i < t.len(),
        t[i] != p[i],
    ensures
        !starts_with(t, p),
{
    if starts_with(t, p) {
        assert(t.take(p.len() as int)[i] == t[i]);
    }
}

proof fn lemma_after_space(tag: Seq<char>, x: Seq<char>)
    requires
        lacks(tag, ' '),
    ensures
        after_space(tag + seq![' '] + x) == Some(x),
{
    lemma_split_at(tag, ' ', x);
}

/// What the scalar parse lemmas establish of a value's head.
pub open spec fn head_reads(fl: Seq<(Seq<char>, Option<u32>)>, d: DataModel, m: MetadataModel, r: spec_fn(u32) -> Seq<char>, pos: int) -> bool {
    let h = head(d, m, r);
    &&& h.len() > 0
    &&& is_trimmed(h)
    &&& one_line(h)
    &&& !starts_with(h, "!struct"@)
    &&& !starts_with(h, "!Map"@)
    &&& !starts_with(h, "!Array"@)
    &&& scalar_value(fl, h, pos) == Ok::<(DataModel, MetadataModel, int), TextError>((d, meta_back(d, m), pos))
}

proof fn lemma_tag_text(tag: Seq<char>, x: Seq<char>)
    requires
        tag.len() > 0,
        !is_ws(tag[0]),
        one_line(tag),
        x.len() > 0,
        !is_ws(x.last()),
        one_line(x),
    ensures
        is_trimmed(tag + seq![' '] + x),
        one_line(tag + seq![' '] + x),
        (tag + seq![' '] + x).len() > 0,
{
    let h = tag + seq![' '] + x;
    assert(h[0] == tag[0]);
    assert(h.last() == x.last());
    assert forall|i: int| 0 <= i < h.len() implies h[i] != '\n' by {
        if i < tag.len() {
            assert(h[i] == tag[i]);
        } else if i > tag.len() {
            assert(h[i] == x[i - tag.len() - 1]);
        }
    }
}

proof fn lemma_uint16_reads(fl: Seq<(Seq<char>, Option<u32>)>, v: u16, m: MetadataModel, r: spec_fn(u32) -> Seq<char>, pos: int)
    ensures
        head_reads(fl, DataModel::UInt16(v), m, r, pos),
{
    reveal(scalar_value);
    reveal(tagged_int);
    lemma_tags();
    let d = DataModel::UInt16(v);
    let h = head(d, m, r);
    let x = dec(v as nat);
    lemma_radix_value(v as nat, 10);
    lemma_parse_dec(v as nat, 0xFFFF);
    lemma_after_space("!u16"@, x);
    lemma_tag_text("!u16"@, x);
    lemma_starts("!u16"@, seq![' '] + x);
    assert(h =~= "!u16"@ + (seq![' '] + x));
    lemma_not_starts(h, "!struct"@, 1);
    lemma_not_starts(h, "!Map"@, 1);
    lemma_not_starts(h, "!Array"@, 1);
}

proof fn lemma_uint32_reads(fl: Seq<(Seq<char>, Option<u32>)>, v: u32, m: MetadataModel, r: spec_fn(u32) -> Seq<char>, pos: int)
    ensures
        head_reads(fl, DataModel::UInt32(v), m, r, pos),
{
    reveal(scalar_value);
    reveal(tagged_int);
    lemma_tags();
    let d = DataModel::UInt32(v);
    let h = head(d, m, r);
    let x = dec(v as nat);
    lemma_radix_value(v as nat, 10);
    lemma_parse_dec(v as nat, 0xFFFF_FFFF);
    lemma_after_space("!u32"@, x);
    lemma_tag_text("!u32"@, x);
    lemma_starts("!u32"@, seq![' '] + x);
    assert(h =~= "!u32"@ + (seq![' '] + x));
    lemma_not_starts(h, "!struct"@, 1);
    lemma_not_starts(h, "!Map"@, 1);
    lemma_not_starts(h, "!Array"@, 1);
    lemma_not_starts(h, "!u16"@, 2);
}

proof fn lemma_int8_reads(fl: Seq<(Seq<char>, Option<u32>)>, v: i8, m: MetadataModel, r: spec_fn(u32) -> Seq<char>, pos: int)
    ensures
        head_reads(fl, DataModel::Int8(v), m, r, pos),
{
    reveal(scalar_value);
    reveal(tagged_int);
    lemma_tags();
    let d = DataModel::Int8(v);
    let h = head(d, m, r);
    let x = signed_dec(v as int);
    lemma_parse_signed_dec(v as int, -0x80, 0x7F);
    lemma_signed_text(v as int);
    lemma_after_space("!i8"@, x);
    lemma_tag_text("!i8"@, x);
    lemma_starts("!i8"@, seq![' '] + x);
    assert(h =~= "!i8"@ + (seq![' '] + x));
    lemma_not_starts(h, "!struct"@, 1);
    lemma_not_starts(h, "!Map"@, 1);
    lemma_not_starts(h, "!Array"@, 1);
    lemma_not_starts(h, "!u16"@, 1);
    lemma_not_starts(h, "!u32"@, 1);
}

proof fn lemma_int16_reads(fl: Seq<(Seq<char>, Option<u32>)>, v: i16, m: MetadataModel, r: spec_fn(u32) -> Seq<char>, pos: int)
    ensures
        head_reads(fl, DataModel::Int16(v), m, r, pos),
{
    reveal(scalar_value);
    reveal(tagged_int);
    lemma_tags();
    let d = DataModel::Int16(v);
    let h = head(d, m, r);
    let x = signed_dec(v as int);
    lemma_parse_signed_dec(v as int, -0x8000, 0x7FFF);
    lemma_signed_text(v as int);
    lemma_after_space("!i16"@, x);
    lemma_tag_text("!i16"@, x);
    lemma_starts("!i16"@, seq![' '] + x);
    assert(h =~= "!i16"@ + (seq![' '] + x));
    lemma_not_starts(h, "!struct"@, 1);
    lemma_not_starts(h, "!Map"@, 1);
    lemma_not_starts(h, "!Array"@, 1);
    lemma_not_starts(h, "!u16"@, 1);
    lemma_not_starts(h, "!u32"@, 1);
    lemma_not_starts(h, "!i8"@, 2);
}

proof fn lemma_int32_reads(fl: Seq<(Seq<char>, Option<u32>)>, v: i32, m: MetadataModel, r: spec_fn(u32) -> Seq<char>, pos: int)
    ensures
        head_reads(fl, DataModel::Int32(v), m, r, pos),
{
    reveal(scalar_value);
    reveal(tagged_int);
    lemma_tags();
    let d = DataModel::Int32(v);
    let h = head(d, m, r);
    let x = signed_dec(v as int);
    lemma_parse_signed_dec(v as int, -0x8000_0000, 0x7FFF_FFFF);
    lemma_signed_text(v as int);
    lemma_after_space("!i32"@, x);
    lemma_tag_text("!i32"@, x);
    lemma_starts("!i32"@, seq![' '] + x);
    assert(h =~= "!i32"@ + (seq![' '] + x));
    lemma_not_starts(h, "!struct"@, 1);
    lemma_not_starts(h, "!Map"@, 1);
    lemma_not_starts(h, "!Array"@, 1);
    lemma_not_starts(h, "!u16"@, 1);
    lemma_not_starts(h, "!u32"@, 1);
    lemma_not_starts(h, "!i8"@, 2);
    lemma_not_starts(h, "!i16"@, 2);
}

/// The digits of a signed integer: one line, no whitespace.
proof fn lemma_signed_text(v: int)
    ensures
        signed_dec(v).len() > 0,
        !is_ws(signed_dec(v).last()),
        one_line(signed_dec(v)),
        no_ws(signed_dec(v)),
        lacks(signed_dec(v), ':'),
{
    if v < 0 {
        lemma_radix_value((-v) as nat, 10);
        let d = dec((-v) as nat);
        let s = signed_dec(v);
        assert(s =~= seq!['-'] + d);
        assert forall|i: int| 0 <= i < s.len() implies s[i] != '\n' && !is_ws(s[i]) && s[i] != ':' by {
            if i > 0 {
                assert(s[i] == d[i - 1]);
            }
        }
        assert(s.last() == d.last());
    } else {
        lemma_radix_value(v as nat, 10);
    }
}

/// Escaping leaves no line break.
proof fn lemma_escape_facts(s: Seq<char>)
    ensures
        one_line(escape_newlines(s)),
    decreases s.len(),
{
    let nl1 = seq!['\n'];
    let bs = seq!['\\', 'n'];
    if s.len() > 0 {
        let rest = s.drop_first();
        lemma_escape_facts(rest);
        let e = escape_newlines(rest);
        if s.take(1) == nl1 {
            assert(escape_newlines(s) == bs + e);
            assert forall|i: int| 0 <= i < (bs + e).len() implies (bs + e)[i] != '\n' by {
                if i >= 2 {
                    assert((bs + e)[i] == e[i - 2]);
                }
            }
        } else {
            assert(s[0] != '\n') by {
                if s[0] == '\n' {
                    assert(s.take(1) =~= nl1);
                }
            }
            assert(escape_newlines(s) == seq![s[0]] + e);
            assert forall|i: int| 0 <= i < (seq![s[0]] + e).len() implies (seq![s[0]] + e)[i] != '\n' by {
                if i >= 1 {
                    assert((seq![s[0]] + e)[i] == e[i - 1]);
                }
            }
        }
    }
}

proof fn lemma_byte_text(e: u64, x: u8, v: u8)
    ensures
        ({
            let h = "!ByteProperty "@ + hex(e as nat) + " "@ + hex(x as nat) + " "@ + hex(v as nat);
            &&& words(h) == seq!["!ByteProperty"@, hex(e as nat), hex(x as nat), hex(v as nat)]
            &&& h.len() > 0
            &&& is_trimmed(h)
            &&& one_line(h)
            &&& starts_with(h, "!ByteProperty"@)
            &&& h[0] == '!' && h[1] == 'B'
        }),
{
    lemma_tags();
    let tag = "!ByteProperty"@;
    let he = hex(e as nat);
    let hx = hex(x as nat);
    let hv = hex(v as nat);
    let h = "!ByteProperty "@ + he + " "@ + hx + " "@ + hv;
    lemma_radix_value(e as nat, 16);
    lemma_radix_value(x as nat, 16);
    lemma_radix_value(v as nat, 16);
    let t = he + seq![' '] + (hx + seq![' '] + hv);
    assert(h =~= tag + seq![' '] + t);
    lemma_words_single(hv);
    lemma_words_cons(hx, hv);
    lemma_words_cons(he, hx + seq![' '] + hv);
    lemma_words_cons(tag, t);
    assert(words(h) =~= seq![tag, he, hx, hv]);
    assert(one_line(t)) by {
        assert forall|i: int| 0 <= i < t.len() implies t[i] != '\n' by {
            if i < he.len() {
                assert(t[i] == he[i]);
            } else if i > he.len() && i < he.len() + 1 + hx.len() {
                assert(t[i] == hx[i - he.len() - 1]);
            } else if i > he.len() + 1 + hx.len() {
                assert(t[i] == hv[i - he.len() - 2 - hx.len()]);
            }
        }
    }
    assert(t.last() == hv.last());
    lemma_tag_text(tag, t);
    lemma_starts(tag, seq![' '] + t);
    assert(h =~= tag + (seq![' '] + t));
}

proof fn lemma_byte_reads(fl: Seq<(Seq<char>, Option<u32>)>, v: u8, m: MetadataModel, r: spec_fn(u32) -> Seq<char>, pos: int)
    ensures
        head_reads(fl, DataModel::Byte(v), m, r, pos),
{
    let d = DataModel::Byte(v);
    let h = head(d, m, r);
    let (e, x) = match m {
        MetadataModel::Byte(e, x) => (e, x),
        _ => (0u64, 0u8),
    };
    lemma_byte_text(e, x, v);
    lemma_parse_hex(e as nat, 0xFFFF_FFFF_FFFF_FFFF);
    lemma_parse_hex(x as nat, 0xFF);
    lemma_parse_hex(v as nat, 0xFF);
    lemma_tags();
    lemma_not_starts(h, "!struct"@, 1);
    lemma_not_starts(h, "!Map"@, 1);
    lemma_not_starts(h, "!Array"@, 1);
    lemma_not_starts(h, "!u16"@, 1);
    lemma_not_starts(h, "!u32"@, 1);
    lemma_not_starts(h, "!i8"@, 1);
    lemma_not_starts(h, "!i16"@, 1);
    lemma_not_starts(h, "!i32"@, 1);
    reveal(scalar_value);
}

proof fn lemma_enum_text(n: Seq<char>, sv: Seq<char>)
    requires
        word(n),
        word(sv),
    ensures
        ({
            let h = "!EnumProperty "@ + n + " "@ + sv;
            &&& words(h) == seq!["!EnumProperty"@, n, sv]
            &&& h.len() > 0
            &&& is_trimmed(h)
            &&& one_line(h)
            &&& starts_with(h, "!EnumProperty"@)
            &&& h[0] == '!' && h[1] == 'E' && h[2] == 'n'
        }),
{
    lemma_tags();
    let tag = "!EnumProperty"@;
    let h = "!EnumProperty "@ + n + " "@ + sv;
    let t = n + seq![' '] + sv;
    assert(h =~= tag + seq![' '] + t);
    lemma_words_single(sv);
    lemma_words_cons(n, sv);
    lemma_words_cons(tag, t);
    assert(words(h) =~= seq![tag, n, sv]);
    assert(one_line(t)) by {
        assert forall|i: int| 0 <= i < t.len() implies t[i] != '\n' by {
            if i < n.len() {
                assert(t[i] == n[i]);
            } else if i > n.len() {
                assert(t[i] == sv[i - n.len() - 1]);
            }
        }
    }
    assert(t.last() == sv.last());
    lemma_tag_text(tag, t);
    lemma_starts(tag, seq![' '] + t);
    assert(h =~= tag + (seq![' '] + t));
}

proof fn lemma_enum_reads(fl: Seq<(Seq<char>, Option<u32>)>, s: Seq<char>, n: Seq<char>, r: spec_fn(u32) -> Seq<char>, pos: int)
    requires
        word(n),
        word(replace(s, "::"@, "->"@)),
        no_arrow(s),
    ensures
        head_reads(fl, DataModel::Enum(s), MetadataModel::Enum(n), r, pos),
{
    let m = MetadataModel::Enum(n);
    let d = DataModel::Enum(s);
    let sv = replace(s, "::"@, "->"@);
    let h = "!EnumProperty "@ + n + " "@ + sv;
    assert(head(d, m, r) == h);
    lemma_enum_text(n, sv);
    assert(replace(sv, "->"@, "::"@) == s) by {
        lemma_arrows_back(s);
    }
    lemma_tags();
    lemma_not_starts(h, "!struct"@, 1);
    lemma_not_starts(h, "!Map"@, 1);
    lemma_not_starts(h, "!Array"@, 1);
    lemma_not_starts(h, "!u16"@, 1);
    lemma_not_starts(h, "!u32"@, 1);
    lemma_not_starts(h, "!i8"@, 1);
    lemma_not_starts(h, "!i16"@, 1);
    lemma_not_starts(h, "!i32"@, 1);
    lemma_not_starts(h, "!ByteProperty"@, 1);
    let w = words(h);
    assert(w[1] == n && w[2] == sv && w.len() == 3);
    assert(scalar_value(fl, h, pos) == Ok::<(DataModel, MetadataModel, int), TextError>(
        (DataModel::Enum(replace(w[2], "->"@, "::"@)), MetadataModel::Enum(w[1]), pos),
    )) by {
        reveal(scalar_value);
    }
}

proof fn lemma_utf16_reads(fl: Seq<(Seq<char>, Option<u32>)>, s: Seq<char>, m: MetadataModel, r: spec_fn(u32) -> Seq<char>, pos: int)
    requires
        data_rt(DataModel::StringUtf16(s), m, r, fl),
    ensures
        head_reads(fl, DataModel::StringUtf16(s), m, r, pos),
{
    reveal(scalar_value);
    lemma_tags();
    let d = DataModel::StringUtf16(s);
    let h = head(d, m, r);
    let tag = "!utf16"@;
    let esc = escape_newlines(s);
    lemma_escape_facts(s);
    lemma_unescape_escape(s);
    assert(h =~= tag + seq![' '] + esc);
    lemma_after_space(tag, esc);
    lemma_tag_text(tag, esc);
    lemma_starts(tag, seq![' '] + esc);
    assert(h =~= tag + (seq![' '] + esc));
    lemma_not_starts(h, "!struct"@, 1);
    lemma_not_starts(h, "!Map"@, 1);
    lemma_not_starts(h, "!Array"@, 1);
    lemma_not_starts(h, "!u16"@, 2);
    lemma_not_starts(h, "!u32"@, 2);
    lemma_not_starts(h, "!i8"@, 1);
    lemma_not_starts(h, "!i16"@, 1);
    lemma_not_starts(h, "!i32"@, 1);
    lemma_not_starts(h, "!ByteProperty"@, 1);
    lemma_not_starts(h, "!EnumProperty"@, 1);
}

proof fn lemma_name_reads(fl: Seq<(Seq<char>, Option<u32>)>, s: Seq<char>, m: MetadataModel, r: spec_fn(u32) -> Seq<char>, pos: int)
    requires
        data_rt(DataModel::Name(s), m, r, fl),
    ensures
        head_reads(fl, DataModel::Name(s), m, r, pos),
{
    reveal(scalar_value);
    lemma_tags();
    let d = DataModel::Name(s);
    let h = head(d, m, r);
    let tag = "!name"@;
    assert(h =~= tag + seq![' '] + s);
    lemma_after_space(tag, s);
    lemma_tag_text(tag, s);
    lemma_starts(tag, seq![' '] + s);
    assert(h =~= tag + (seq![' '] + s));
    lemma_not_starts(h, "!struct"@, 1);
    lemma_not_starts(h, "!Map"@, 1);
    lemma_not_starts(h, "!Array"@, 1);
    lemma_not_starts(h, "!u16"@, 1);
    lemma_not_starts(h, "!u32"@, 1);
    lemma_not_starts(h, "!i8"@, 1);
    lemma_not_starts(h, "!i16"@, 1);
    lemma_not_starts(h, "!i32"@, 1);
    lemma_not_starts(h, "!ByteProperty"@, 1);
    lemma_not_starts(h, "!EnumProperty"@, 1);
    lemma_not_starts(h, "!utf16"@, 1);
    lemma_not_starts(h, "!EmptyString"@, 1);
}

proof fn lemma_empty_string_reads(fl: Seq<(Seq<char>, Option<u32>)>, m: MetadataModel, r: spec_fn(u32) -> Seq<char>, pos: int)
    ensures
        head_reads(fl, DataModel::String(seq![]), m, r, pos),
{
    reveal(scalar_value);
    lemma_tags();
    let d = DataModel::String(seq![]);
    let h = head(d, m, r);
    assert(h == "!EmptyString"@);
    lemma_starts(h, Seq::<char>::empty());
    assert(h + Seq::<char>::empty() =~= h);
    lemma_not_starts(h, "!struct"@, 1);
    lemma_not_starts(h, "!Map"@, 1);
    lemma_not_starts(h, "!Array"@, 1);
    lemma_not_starts(h, "!u16"@, 1);
    lemma_not_starts(h, "!u32"@, 1);
    lemma_not_starts(h, "!i8"@, 1);
    lemma_not_starts(h, "!i16"@, 1);
    lemma_not_starts(h, "!i32"@, 1);
    lemma_not_starts(h, "!ByteProperty"@, 1);
    lemma_not_starts(h, "!EnumProperty"@, 2);
    lemma_not_starts(h, "!utf16"@, 1);
}

/// A value that is not a tag: its first character is not `!`.
proof fn lemma_untagged(h: Seq<char>)
    requires
        h.len() > 0,
        h[0] != '!',
    ensures
        !starts_with(h, "!struct"@),
        !starts_with(h, "!Map"@),
        !starts_with(h, "!Array"@),
        !starts_with(h, "!u16"@),
        !starts_with(h, "!u32"@),
        !starts_with(h, "!i8"@),
        !starts_with(h, "!i16"@),
        !starts_with(h, "!i32"@),
        !starts_with(h, "!ByteProperty"@),
        !starts_with(h, "!EnumProperty"@),
        !starts_with(h, "!utf16"@),
        !starts_with(h, "!EmptyString"@),
        !starts_with(h, "!name"@),
{
    lemma_tags();
    lemma_not_starts(h, "!struct"@, 0);
    lemma_not_starts(h, "!Map"@, 0);
    lemma_not_starts(h, "!Array"@, 0);
    lemma_not_starts(h, "!u16"@, 0);
    lemma_not_starts(h, "!u32"@, 0);
    lemma_not_starts(h, "!i8"@, 0);
    lemma_not_starts(h, "!i16"@, 0);
    lemma_not_starts(h, "!i32"@, 0);
    lemma_not_starts(h, "!ByteProperty"@, 0);
    lemma_not_starts(h, "!EnumProperty"@, 0);
    lemma_not_starts(h, "!utf16"@, 0);
    lemma_not_starts(h, "!EmptyString"@, 0);
    lemma_not_starts(h, "!name"@, 0);
}

/// A value that does not start with a quote is a string as it stands: its
/// text with each `\n` escape turned into a line break, and text with no
/// such escape reads as itself. So a property line `Title: hello` gives the
/// string `hello`, wherever its text is not a tag (`!`), a float of the
/// table, `true` or `false`.
pub proof fn lemma_unquoted_value_reads(
    ls: Seq<Seq<char>>,
    fl: Seq<(Seq<char>, Option<u32>)>,
    val: Seq<char>,
    pos: int,
    ind: nat,
)
    requires
        trim(val).len() > 0,
        trim(val)[0] != '!',
        trim(val)[0] != '"',
        float_of(fl, trim(val)) is None,
        trim(val) != "true"@,
        trim(val) != "false"@,
    ensures
        string_value(trim(val)) == Ok::<Seq<char>, TextError>(unescape_newlines(trim(val))),
        scalar_value(fl, trim(val), pos) == Ok::<(DataModel, MetadataModel, int), TextError>(
            (DataModel::String(unescape_newlines(trim(val))), MetadataModel::Empty, pos),
        ),
        parse_value(ls, fl, val, pos, ind) == Ok::<(DataModel, MetadataModel, int), TextError>(
            (DataModel::String(unescape_newlines(trim(val))), MetadataModel::Empty, pos),
        ),
        no_escape(trim(val)) ==> parse_value(ls, fl, val, pos, ind) == Ok::<(DataModel, MetadataModel, int), TextError>(
            (DataModel::String(trim(val)), MetadataModel::Empty, pos),
        ),
{
    let v = trim(val);
    reveal(scalar_value);
    reveal(string_value);
    lemma_untagged(v);
    lemma_not_starts(v, seq!['"'], 0);
    if no_escape(v) {
        lemma_unescape_plain(v);
    }
}

/// A value between quotes is the string between them, with each `\n`
/// escape turned into a line break.
pub proof fn lemma_quoted_value_reads(s: Seq<char>)
    ensures
        string_value(seq!['"'] + s + seq!['"']) == Ok::<Seq<char>, TextError>(unescape_newlines(s)),
{
    reveal(string_value);
    let v = seq!['"'] + s + seq!['"'];
    assert(v.take(1) =~= seq!['"']);
    assert(v.skip(v.len() - 1) =~= seq!['"']);
    assert(v.subrange(1, v.len() - 1) =~= s);
}

proof fn lemma_float_reads(fl: Seq<(Seq<char>, Option<u32>)>, b: u32, m: MetadataModel, r: spec_fn(u32) -> Seq<char>, pos: int)
    requires
        data_rt(DataModel::Float(b), m, r, fl),
    ensures
        head_reads(fl, DataModel::Float(b), m, r, pos),
{
    reveal(scalar_value);
    lemma_untagged(r(b));
}

proof fn lemma_bool_reads(fl: Seq<(Seq<char>, Option<u32>)>, m: MetadataModel, r: spec_fn(u32) -> Seq<char>, pos: int)
    requires
        data_rt(DataModel::Bool, m, r, fl),
        m is Bool,
    ensures
        head_reads(fl, DataModel::Bool, m, r, pos),
{
    reveal(scalar_value);
    lemma_tags();
    let h = head(DataModel::Bool, m, r);
    lemma_untagged(h);
}

proof fn lemma_string_reads(fl: Seq<(Seq<char>, Option<u32>)>, s: Seq<char>, m: MetadataModel, r: spec_fn(u32) -> Seq<char>, pos: int)
    requires
        data_rt(DataModel::String(s), m, r, fl),
        s.len() > 0,
    ensures
        head_reads(fl, DataModel::String(s), m, r, pos),
{
    reveal(scalar_value);
    reveal(string_value);
    lemma_tags();
    let esc = escape_newlines(s);
    let h = head(DataModel::String(s), m, r);
    assert(h =~= seq!['"'] + esc + seq!['"']);
    lemma_escape_facts(s);
    lemma_unescape_escape(s);
    lemma_untagged(h);
    assert(h != "true"@) by {
        assert(h[0] == '"');
    }
    assert(h != "false"@) by {
        assert(h[0] == '"');
    }
    assert(starts_with(h, seq!['"'])) by {
        assert(h.take(1) =~= seq!['"']);
    }
    assert(crate::chars::ends_with(h, seq!['"'])) by {
        assert(h.skip(h.len() - 1) =~= seq!['"']);
    }
    assert(h.subrange(1, h.len() - 1) =~= esc);
    assert(one_line(h)) by {
        assert forall|i: int| 0 <= i < h.len() implies h[i] != '\n' by {
            if 0 < i < h.len() - 1 {
                assert(h[i] == esc[i - 1]);
            }
        }
    }
}

/// The head of any value that is not an array, struct or map reads back.
pub proof fn lemma_scalar_reads(fl: Seq<(Seq<char>, Option<u32>)>, d: DataModel, m: MetadataModel, r: spec_fn(u32) -> Seq<char>, pos: int, ind: nat)
    requires
        !(d is Array || d is Struct || d is MapEntries),
        data_rt(d, m, r, fl),
        crate::text_format::data_text_ok(d, m, ind),
    ensures
        head_reads(fl, d, m, r, pos),
{
    match d {
        DataModel::Bool => lemma_bool_reads(fl, m, r, pos),
        DataModel::Byte(v) => lemma_byte_reads(fl, v, m, r, pos),
        DataModel::Enum(s) => {
            let n = match m {
                MetadataModel::Enum(n) => n,
                _ => Seq::empty(),
            };
            lemma_enum_reads(fl, s, n, r, pos);
        },
        DataModel::Float(b) => lemma_float_reads(fl, b, m, r, pos),
        DataModel::String(s) => {
            if s.len() == 0 {
                assert(s =~= Seq::<char>::empty());
                lemma_empty_string_reads(fl, m, r, pos);
            } else {
                lemma_string_reads(fl, s, m, r, pos);
            }
        },
        DataModel::StringUtf16(s) => lemma_utf16_reads(fl, s, m, r, pos),
        DataModel::Name(s) => lemma_name_reads(fl, s, m, r, pos),
        DataModel::UInt16(v) => lemma_uint16_reads(fl, v, m, r, pos),
        DataModel::UInt32(v) => lemma_uint32_reads(fl, v, m, r, pos),
        DataModel::Int8(v) => lemma_int8_reads(fl, v, m, r, pos),
        DataModel::Int16(v) => lemma_int16_reads(fl, v, m, r, pos),
        DataModel::Int32(v) => lemma_int32_reads(fl, v, m, r, pos),
        _ => {},
    }
}

/// The lines of array items numbered from `base`.
pub open spec fn blocks(items: Seq<DataModel>, m: MetadataModel, ind: nat, r: spec_fn(u32) -> Seq<char>, base: nat) -> Seq<Seq<char>>
    decreases items.len(),
{
    if items.len() == 0 {
        seq![]
    } else {
        seq![nl(spaces(ind + 2) + "- "@ + dec(base) + ":"@ + head(items[0], m, r))] + body_lines(items[0], m, ind + 4, r)
            + blocks(items.subrange(1, items.len() as int), m, ind, r, base + 1)
    }
}

/// The lines of array items end with those of the last item.
pub proof fn lemma_blocks_snoc(items: Seq<DataModel>, m: MetadataModel, ind: nat, r: spec_fn(u32) -> Seq<char>, base: nat)
    requires
        items.len() > 0,
    ensures
        blocks(items, m, ind, r, base) == blocks(items.drop_last(), m, ind, r, base) + seq![
            nl(spaces(ind + 2) + "- "@ + dec((base + items.len() - 1) as nat) + ":"@ + head(items.last(), m, r)),
        ] + body_lines(items.last(), m, ind + 4, r),
    decreases items.len(),
{
    if items.len() == 1 {
        assert(items.drop_last() =~= Seq::<DataModel>::empty());
        assert(items.subrange(1, 1) =~= Seq::<DataModel>::empty());
        assert(items[0] == items.last());
        assert(blocks(items.subrange(1, 1), m, ind, r, base + 1) =~= Seq::<Seq<char>>::empty());
        assert(blocks(items.drop_last(), m, ind, r, base) =~= Seq::<Seq<char>>::empty());
        assert((base + items.len() - 1) as nat == base);
        assert(blocks(items, m, ind, r, base) =~= blocks(items.drop_last(), m, ind, r, base) + seq![
            nl(spaces(ind + 2) + "- "@ + dec((base + items.len() - 1) as nat) + ":"@ + head(items.last(), m, r)),
        ] + body_lines(items.last(), m, ind + 4, r));
    } else {
        let rest = items.subrange(1, items.len() as int);
        lemma_blocks_snoc(rest, m, ind, r, base + 1);
        assert(rest.drop_last() =~= items.drop_last().subrange(1, items.len() - 1));
        assert(rest.last() == items.last());
        assert(items.drop_last()[0] == items[0]);
        let first = seq![nl(spaces(ind + 2) + "- "@ + dec(base) + ":"@ + head(items[0], m, r))] + body_lines(items[0], m, ind + 4, r);
        assert(blocks(items, m, ind, r, base) == first + blocks(rest, m, ind, r, base + 1));
        assert(blocks(items.drop_last(), m, ind, r, base) == first + blocks(rest.drop_last(), m, ind, r, base + 1));
        assert((base + 1 + rest.len() - 1) as nat == (base + items.len() - 1) as nat);
        assert(blocks(items, m, ind, r, base) =~= blocks(items.drop_last(), m, ind, r, base) + seq![
            nl(spaces(ind + 2) + "- "@ + dec((base + items.len() - 1) as nat) + ":"@ + head(items.last(), m, r)),
        ] + body_lines(items.last(), m, ind + 4, r));
    }
}

/// An array's item lines, numbered from zero.
pub proof fn lemma_items_blocks(items: Seq<DataModel>, m: MetadataModel, ind: nat, r: spec_fn(u32) -> Seq<char>)
    ensures
        crate::text_lines::items_lines(items, m, ind, r) == blocks(items, m, ind, r, 0),
    decreases items.len(),
{
    if items.len() > 0 {
        let k = items.len() - 1;
        lemma_items_blocks(items.subrange(0, k), m, ind, r);
        lemma_blocks_snoc(items, m, ind, r, 0);
        assert(items.drop_last() =~= items.subrange(0, k));
    } else {
        assert(blocks(items, m, ind, r, 0) =~= Seq::<Seq<char>>::empty());
    }
}

/// The lines of map entries, first to last.
pub open spec fn entries(pairs: Seq<(DataModel, DataModel)>, m: MetadataModel, ind: nat, r: spec_fn(u32) -> Seq<char>) -> Seq<Seq<char>>
    decreases pairs.len(),
{
    if pairs.len() == 0 {
        seq![]
    } else {
        seq![nl(spaces(ind + 4) + "- "@ + key_chars(pairs[0].0, r) + ":"@ + head(pairs[0].1, m, r))] + body_lines(
            pairs[0].1,
            m,
            ind + 6,
            r,
        ) + entries(pairs.subrange(1, pairs.len() as int), m, ind, r)
    }
}

/// The lines of map entries end with those of the last entry.
pub proof fn lemma_entries_snoc(pairs: Seq<(DataModel, DataModel)>, m: MetadataModel, ind: nat, r: spec_fn(u32) -> Seq<char>)
    requires
        pairs.len() > 0,
    ensures
        entries(pairs, m, ind, r) == entries(pairs.drop_last(), m, ind, r) + seq![
            nl(spaces(ind + 4) + "- "@ + key_chars(pairs.last().0, r) + ":"@ + head(pairs.last().1, m, r)),
        ] + body_lines(pairs.last().1, m, ind + 6, r),
    decreases pairs.len(),
{
    if pairs.len() == 1 {
        assert(pairs.drop_last() =~= Seq::<(DataModel, DataModel)>::empty());
        assert(pairs.subrange(1, 1) =~= Seq::<(DataModel, DataModel)>::empty());
        assert(pairs[0] == pairs.last());
        assert(entries(pairs.subrange(1, 1), m, ind, r) =~= Seq::<Seq<char>>::empty());
        assert(entries(pairs.drop_last(), m, ind, r) =~= Seq::<Seq<char>>::empty());
        assert(entries(pairs, m, ind, r) =~= entries(pairs.drop_last(), m, ind, r) + seq![
            nl(spaces(ind + 4) + "- "@ + key_chars(pairs.last().0, r) + ":"@ + head(pairs.last().1, m, r)),
        ] + body_lines(pairs.last().1, m, ind + 6, r));
    } else {
        let rest = pairs.subrange(1, pairs.len() as int);
        lemma_entries_snoc(rest, m, ind, r);
        assert(rest.drop_last() =~= pairs.drop_last().subrange(1, pairs.len() - 1));
        assert(rest.last() == pairs.last());
        assert(pairs.drop_last()[0] == pairs[0]);
        assert(entries(pairs, m, ind, r) =~= entries(pairs.drop_last(), m, ind, r) + seq![
            nl(spaces(ind + 4) + "- "@ + key_chars(pairs.last().0, r) + ":"@ + head(pairs.last().1, m, r)),
        ] + body_lines(pairs.last().1, m, ind + 6, r));
    }
}

/// A map's entry lines, first to last.
pub proof fn lemma_pairs_entries(pairs: Seq<(DataModel, DataModel)>, m: MetadataModel, ind: nat, r: spec_fn(u32) -> Seq<char>)
    ensures
        crate::text_lines::pairs_lines(pairs, m, ind, r) == entries(pairs, m, ind, r),
    decreases pairs.len(),
{
    if pairs.len() > 0 {
        let k = pairs.len() - 1;
        lemma_pairs_entries(pairs.subrange(0, k), m, ind, r);
        lemma_entries_snoc(pairs, m, ind, r);
        assert(pairs.drop_last() =~= pairs.subrange(0, k));
    } else {
        assert(entries(pairs, m, ind, r) =~= Seq::<Seq<char>>::empty());
    }
}

/// `body` stands in `ls` from `pos`.
#[verifier::opaque]
pub open spec fn lines_at(ls: Seq<Seq<char>>, pos: int, body: Seq<Seq<char>>) -> bool {
    &&& 0 <= pos
    &&& pos + body.len() <= ls.len()
    &&& ls.subrange(pos, pos + body.len()) == body
}

/// The line at `q`, if there is one, is indented by less than `j`.
#[verifier::opaque]
pub open spec fn ends_at(ls: Seq<Seq<char>>, q: int, j: nat) -> bool {
    ||| q == ls.len()
    ||| 0 <= q < ls.len() && clean(ls[q]) && lead_spaces(ls[q]) < j
}

/// Where `a + b` stands from `pos`, `a` stands there and `b` follows it.
pub proof fn lemma_lines_at_split(ls: Seq<Seq<char>>, pos: int, a: Seq<Seq<char>>, b: Seq<Seq<char>>)
    requires
        lines_at(ls, pos, a + b),
    ensures
        lines_at(ls, pos, a),
        lines_at(ls, pos + a.len(), b),
        0 <= pos,
        pos + a.len() + b.len() <= ls.len(),
{
    reveal(lines_at);
    assert(ls.subrange(pos, pos + a.len()) =~= (a + b).subrange(0, a.len() as int));
    assert((a + b).subrange(0, a.len() as int) =~= a);
    assert(ls.subrange(pos + a.len(), pos + a.len() + b.len()) =~= (a + b).subrange(a.len() as int, (a + b).len() as int));
    assert((a + b).subrange(a.len() as int, (a + b).len() as int) =~= b);
}

/// The line at `pos + i` is `a[i]` where `a` stands from `pos`.
pub proof fn lemma_lines_at_index(ls: Seq<Seq<char>>, pos: int, a: Seq<Seq<char>>, i: int)
    requires
        lines_at(ls, pos, a),
        0 <= i < a.len(),
    ensures
        ls[pos + i] == a[i],
        0 <= pos,
        pos + a.len() <= ls.len(),
{
    reveal(lines_at);
    assert(ls.subrange(pos, pos + a.len())[i] == ls[pos + i]);
}

/// The line at `pos` is the first of the lines that stand there.
pub proof fn lemma_lines_at_first(ls: Seq<Seq<char>>, pos: int, a: Seq<Seq<char>>)
    requires
        lines_at(ls, pos, a),
        a.len() > 0,
    ensures
        ls[pos] == a[0],
        0 <= pos,
        pos + a.len() <= ls.len(),
{
    lemma_lines_at_index(ls, pos, a, 0);
}


/// Where `a` stands from `pos`, it lies within `ls`.
pub proof fn lemma_lines_at_bounds(ls: Seq<Seq<char>>, pos: int, a: Seq<Seq<char>>)
    requires
        lines_at(ls, pos, a),
    ensures
        0 <= pos,
        pos + a.len() <= ls.len(),
{
    reveal(lines_at);
}


/// The lines stand in themselves.
pub proof fn lemma_lines_at_whole(ls: Seq<Seq<char>>)
    ensures
        lines_at(ls, 0, ls),
{
    reveal(lines_at);
    assert(ls.subrange(0, ls.len() as int) =~= ls);
}

/// Every list ends where the lines end.
pub proof fn lemma_ends_at_len(ls: Seq<Seq<char>>, j: nat)
    ensures
        ends_at(ls, ls.len() as int, j),
{
    reveal(ends_at);
}

} // verus!
