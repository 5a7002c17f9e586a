//! Writing a package as text.

use crate::b64::base64_encode;
use crate::text_lines::flat;
use crate::text_parse::{lines, parse_object_text, TextError};
use crate::text_readback::{lemma_text_roundtrip, text_roundtrips};
use crate::text_roundtrip::{b64_ok, b64s};
use crate::chars::{chars_of, replace, replace_chars, string_of};
use crate::format::{summary_bytes, summary_ok};
use crate::numtext::{dec, dec_chars, hex, hex_chars, signed_dec, signed_dec_chars};
use crate::reader::{items_model, pairs_model};
use crate::text_format::{
    data_text, data_text_ok, escape_newlines, items_text, key_text, object_text, object_text_ok,
    pairs_text, pieces, prop_text, prop_text_ok, props_text, spaces, txt, PieceModel, TextPiece,
};
use crate::types::{
    properties_model, SummaryModel, DataModel, IoUObject, ObjectModel, PropertyModel, UObjectProperty, UObjectPropertyData,
    UObjectPropertyMetadata, UObjectSummary,
};
use vstd::prelude::*;

verus! {

proof fn lemma_pieces_push(v: Seq<TextPiece>, x: TextPiece)
    ensures
        pieces(v.push(x)) == pieces(v) + seq![x@],
{
    assert(pieces(v.push(x)) =~= pieces(v) + seq![x@]);
}

/// Appends the characters of `s`.
fn append(v: &mut Vec<char>, s: &[char])
    ensures
        final(v)@ == old(v)@ + s@,
{
    let n = s.len();
    for i in 0..n
        invariant
            n == s@.len(),
            v@ == old(v)@ + s@.take(i as int),
    {
        assert(s@.take(i + 1) =~= s@.take(i as int).push(s@[i as int]));
        v.push(s[i]);
    }
    assert(s@.take(n as int) =~= s@);
}

/// Appends the characters of `s`.
fn append_str(v: &mut Vec<char>, s: &str)
    ensures
        final(v)@ == old(v)@ + s@,
{
    let c = chars_of(s);
    append(v, &c);
}

/// `n` spaces.
fn spaces_vec(n: usize) -> (v: Vec<char>)
    ensures
        v@ == spaces(n as nat),
{
    let mut v: Vec<char> = Vec::new();
    for i in 0..n
        invariant
            v@ == spaces(i as nat),
    {
        v.push(' ');
        assert(v@ =~= spaces((i + 1) as nat));
    }
    v
}

/// Adds a piece of literal text.
fn emit(out: &mut Vec<TextPiece>, cs: &[char])
    ensures
        pieces(final(out)@) == pieces(old(out)@) + txt(cs@),
{
    let s = string_of(cs);
    proof {
        lemma_pieces_push(out@, TextPiece::Text(s));
    }
    out.push(TextPiece::Text(s));
}

/// Adds a piece of literal text.
fn emit_str(out: &mut Vec<TextPiece>, s: &str)
    ensures
        pieces(final(out)@) == pieces(old(out)@) + txt(s@),
{
    let c = chars_of(s);
    emit(out, &c);
}

/// Adds a float piece.
fn emit_float(out: &mut Vec<TextPiece>, b: u32)
    ensures
        pieces(final(out)@) == pieces(old(out)@) + seq![PieceModel::Float(b)],
{
    proof {
        lemma_pieces_push(out@, TextPiece::Float(b));
    }
    out.push(TextPiece::Float(b));
}

/// The characters of `s` with `::` written as `->`.
fn arrows(s: &str) -> (v: Vec<char>)
    ensures
        v@ == replace(s@, "::"@, "->"@),
{
    let c = chars_of(s);
    proof {
        reveal_strlit("::");
    }
    replace_chars(&c, "::", "->")
}

/// The characters of `s` with line breaks written as `\n`.
fn escaped(s: &str) -> (v: Vec<char>)
    ensures
        v@ == escape_newlines(s@),
{
    let c = chars_of(s);
    proof {
        reveal_strlit("\n");
        reveal_strlit("\\n");
    }
    let v = replace_chars(&c, "\n", "\\n");
    assert("\n"@ =~= seq!['\n']);
    assert("\\n"@ =~= seq!['\\', 'n']);
    v
}

/// `pre` followed by the strings `a`, `b`, `c`.
fn line3(pre: &[char], a: &str, b: &[char], c: &str) -> (v: Vec<char>)
    ensures
        v@ == pre@ + a@ + b@ + c@,
{
    let mut v: Vec<char> = Vec::new();
    append(&mut v, pre);
    append_str(&mut v, a);
    append(&mut v, b);
    append_str(&mut v, c);
    assert(v@ =~= pre@ + a@ + b@ + c@);
    v
}

impl UObjectPropertyData {
    /// Writes the value as text under `metadata`, at an indentation of
    /// `indent_spaces`.
    pub fn to_string(&self, metadata: &UObjectPropertyMetadata, out: &mut Vec<TextPiece>, indent_spaces: usize)
        requires
            data_text_ok(self@, metadata@, indent_spaces as nat),
        ensures
            pieces(final(out)@) == pieces(old(out)@) + data_text(self@, metadata@, indent_spaces as nat),
            b64s(self@, metadata@),
        decreases self,
    {
        let ghost start = pieces(out@);
        let ind = indent_spaces;
        let none: Vec<char> = Vec::new();
        proof {
            reveal_strlit("");
        }
        match self {
            UObjectPropertyData::Array(items, schema) => {
                let item_type: &str = match metadata {
                    UObjectPropertyMetadata::Array(t) => t.as_str(),
                    _ => "",
                };
                let pre = spaces_vec(ind + 2);
                emit_str(out, "!Array\n");
                let it = chars_of(item_type);
                emit(out, &line3(&pre, "item_type: ", &it, "\n"));
                let ghost head = pieces(out@);
                match schema {
                    Some((h, array_name)) => {
                        emit(out, &line3(&pre, "item_schema:\n", &none, ""));
                        emit(out, &line3(&pre, "  name: ", &chars_of(h.name.as_str()), "\n"));
                        emit(out, &line3(&pre, "  type: ", &chars_of(h.prop_type.as_str()), "\n"));
                        emit(out, &line3(&pre, "array_name: ", &chars_of(array_name.as_str()), "\n"));
                    },
                    None => {},
                }
                emit(out, &line3(&pre, "items:\n", &none, ""));
                assert(self@->Array_0 =~= items_model(items@));
                items_to_string(items, metadata, out, ind);
            },
            UObjectPropertyData::Bool => {
                match metadata {
                    UObjectPropertyMetadata::Bool(true) => emit_str(out, "true\n"),
                    _ => emit_str(out, "false\n"),
                }
            },
            UObjectPropertyData::Byte(v) => {
                let (e, x): (u64, u8) = match metadata {
                    UObjectPropertyMetadata::Byte(e, x) => (*e, *x),
                    _ => (0, 0),
                };
                let mut line: Vec<char> = Vec::new();
                append_str(&mut line, "!ByteProperty ");
                append(&mut line, &hex_chars(e));
                append_str(&mut line, " ");
                append(&mut line, &hex_chars(x as u64));
                append_str(&mut line, " ");
                append(&mut line, &hex_chars(*v as u64));
                append_str(&mut line, "\n");
                assert(line@ =~= "!ByteProperty "@ + hex(e as nat) + " "@ + hex(x as nat) + " "@ + hex(
                    *v as nat,
                ) + "\n"@);
                emit(out, &line);
            },
            UObjectPropertyData::Enum(val) => {
                let name: &str = match metadata {
                    UObjectPropertyMetadata::Enum(n) => n.as_str(),
                    _ => "",
                };
                let mut line: Vec<char> = Vec::new();
                append_str(&mut line, "!EnumProperty ");
                append_str(&mut line, name);
                append_str(&mut line, " ");
                append(&mut line, &arrows(val.as_str()));
                append_str(&mut line, "\n");
                assert(line@ =~= "!EnumProperty "@ + name@ + " "@ + replace(val@, "::"@, "->"@) + "\n"@);
                emit(out, &line);
            },
            UObjectPropertyData::Struct(props, raw) => {
                match metadata {
                    UObjectPropertyMetadata::Struct(data) => {
                        let a = base64_encode(data.as_slice());
                        let b = base64_encode(raw.as_slice());
                        assert(b64_ok(data@) && b64_ok(raw@));
                        let mut line: Vec<char> = Vec::new();
                        append_str(&mut line, "!struct ");
                        append_str(&mut line, a.as_str());
                        append_str(&mut line, " ");
                        append_str(&mut line, b.as_str());
                        emit(out, &line);
                    },
                    _ => {},
                }
                emit_str(out, "\n");
                assert(self@->Struct_0 =~= properties_model(props@));
                props_to_string(props, out, ind + 2);
            },
            UObjectPropertyData::Float(b) => {
                emit_float(out, *b);
                emit_str(out, "\n");
            },
            UObjectPropertyData::String(val) => {
                if val.as_str().is_empty() {
                    emit_str(out, "!EmptyString\n");
                } else {
                    emit(out, &line3(&none, "\"", &escaped(val.as_str()), "\"\n"));
                }
            },
            UObjectPropertyData::StringUtf16(val) => {
                emit(out, &line3(&none, "!utf16 ", &escaped(val.as_str()), "\n"));
            },
            UObjectPropertyData::MapEntries(pairs) => {
                let (k, v): (&str, &str) = match metadata {
                    UObjectPropertyMetadata::MapTypes(k, v) => (k.as_str(), v.as_str()),
                    _ => ("", ""),
                };
                let pre = spaces_vec(ind + 2);
                emit_str(out, "!Map\n");
                emit(out, &line3(&pre, "key_type: ", &chars_of(k), "\n"));
                emit(out, &line3(&pre, "val_type: ", &chars_of(v), "\n"));
                emit(out, &line3(&pre, "map_data:\n", &none, ""));
                assert(self@->MapEntries_0 =~= pairs_model(pairs@));
                pairs_to_string(pairs, metadata, out, ind);
            },
            UObjectPropertyData::Name(val) => {
                emit(out, &line3(&none, "!name ", &chars_of(val.as_str()), "\n"));
            },
            UObjectPropertyData::UInt16(v) => {
                emit(out, &line3(&none, "!u16 ", &dec_chars(*v as u64), "\n"));
            },
            UObjectPropertyData::UInt32(v) => {
                emit(out, &line3(&none, "!u32 ", &dec_chars(*v as u64), "\n"));
            },
            UObjectPropertyData::Int8(v) => {
                emit(out, &line3(&none, "!i8 ", &signed_dec_chars(*v as i64), "\n"));
            },
            UObjectPropertyData::Int16(v) => {
                emit(out, &line3(&none, "!i16 ", &signed_dec_chars(*v as i64), "\n"));
            },
            UObjectPropertyData::Int32(v) => {
                emit(out, &line3(&none, "!i32 ", &signed_dec_chars(*v as i64), "\n"));
            },
        }
        proof {
            assert(none@ =~= Seq::<char>::empty());
            assert(pieces(out@) =~= start + data_text(self@, metadata@, ind as nat));
        }
    }
}

/// Writes the numbered items of an array.
fn items_to_string(items: &Vec<UObjectPropertyData>, metadata: &UObjectPropertyMetadata, out: &mut Vec<TextPiece>, ind: usize)
    requires
        ind + 6 <= usize::MAX,
        forall|j: int| 0 <= j < items@.len() ==> data_text_ok(#[trigger] items_model(items@)[j], metadata@, (ind + 4) as nat),
    ensures
        pieces(final(out)@) == pieces(old(out)@) + items_text(items_model(items@), metadata@, ind as nat),
        forall|j: int| 0 <= j < items@.len() ==> b64s(#[trigger] items_model(items@)[j], metadata@),
    decreases items,
{
    let ghost m = items_model(items@);
    let ghost start = pieces(out@);
    let pre = spaces_vec(ind + 2);
    let n = items.len();
    assert(m.subrange(0, 0) =~= Seq::<DataModel>::empty());
    for i in 0..n
        invariant
            n == items@.len(),
            m == items_model(items@),
            pre@ == spaces((ind + 2) as nat),
            ind + 6 <= usize::MAX,
            forall|j: int| 0 <= j < n ==> data_text_ok(#[trigger] m[j], metadata@, (ind + 4) as nat),
            pieces(out@) == start + items_text(m.subrange(0, i as int), metadata@, ind as nat),
            forall|j: int| 0 <= j < i ==> b64s(#[trigger] m[j], metadata@),
    {
        proof {
            assert(decreases_to!(items => items@[i as int]));
            assert(m[i as int] == items@[i as int]@);
        }
        let num = dec_chars(i as u64);
        emit(out, &line3(&pre, "- ", &num, ":"));
        items[i].to_string(metadata, out, ind + 4);
        proof {
            let t = m.subrange(0, i + 1);
            assert(t.subrange(0, t.len() - 1) =~= m.subrange(0, i as int));
            assert(t[t.len() - 1] == m[i as int]);
        }
    }
    assert(m.subrange(0, n as int) =~= m);
}

/// Writes a map key between its entry's dash and colon.
fn key_to_string(k: &UObjectPropertyData, out: &mut Vec<TextPiece>, ind: usize)
    requires
        ind + 6 <= usize::MAX,
        crate::text_format::key_printable(k@),
    ensures
        pieces(final(out)@) == pieces(old(out)@) + key_text(k@, ind as nat),
{
    let ghost start = pieces(out@);
    let mut pre = spaces_vec(ind + 4);
    append_str(&mut pre, "- ");
    match k {
        UObjectPropertyData::Enum(v) => emit(out, &line3(&pre, "", &arrows(v.as_str()), ":")),
        UObjectPropertyData::Int32(v) => emit(out, &line3(&pre, "", &signed_dec_chars(*v as i64), ":")),
        UObjectPropertyData::UInt16(v) => emit(out, &line3(&pre, "", &dec_chars(*v as u64), ":")),
        UObjectPropertyData::String(v) => emit(out, &line3(&pre, "", &chars_of(v.as_str()), ":")),
        UObjectPropertyData::Float(b) => {
            emit(out, &pre);
            emit_float(out, *b);
            emit_str(out, ":");
        },
        UObjectPropertyData::Byte(v) => emit(out, &line3(&pre, "", &hex_chars(*v as u64), ":")),
        _ => {},
    }
    proof {
        reveal_strlit("");
        assert(""@ =~= Seq::<char>::empty());
        assert(pieces(out@) =~= start + key_text(k@, ind as nat));
    }
}

/// Writes the entries of a map.
fn pairs_to_string(
    pairs: &Vec<(UObjectPropertyData, UObjectPropertyData)>,
    metadata: &UObjectPropertyMetadata,
    out: &mut Vec<TextPiece>,
    ind: usize,
)
    requires
        ind + 6 <= usize::MAX,
        forall|j: int|
            0 <= j < pairs@.len() ==> crate::text_format::key_printable(#[trigger] pairs_model(pairs@)[j].0)
                && data_text_ok(pairs_model(pairs@)[j].1, metadata@, (ind + 6) as nat),
    ensures
        pieces(final(out)@) == pieces(old(out)@) + pairs_text(pairs_model(pairs@), metadata@, ind as nat),
        forall|j: int| 0 <= j < pairs@.len() ==> b64s((#[trigger] pairs_model(pairs@)[j]).1, metadata@),
    decreases pairs,
{
    let ghost m = pairs_model(pairs@);
    let ghost start = pieces(out@);
    let n = pairs.len();
    assert(m.subrange(0, 0) =~= Seq::<(DataModel, DataModel)>::empty());
    for i in 0..n
        invariant
            n == pairs@.len(),
            m == pairs_model(pairs@),
            ind + 6 <= usize::MAX,
            forall|j: int|
                0 <= j < n ==> crate::text_format::key_printable(#[trigger] m[j].0) && data_text_ok(
                    m[j].1,
                    metadata@,
                    (ind + 6) as nat,
                ),
            pieces(out@) == start + pairs_text(m.subrange(0, i as int), metadata@, ind as nat),
            forall|j: int| 0 <= j < i ==> b64s((#[trigger] m[j]).1, metadata@),
    {
        proof {
            assert(decreases_to!(pairs => pairs@[i as int]));
            assert(decreases_to!(pairs@[i as int] => pairs@[i as int].1));
            assert(m[i as int] == (pairs@[i as int].0@, pairs@[i as int].1@));
            assert(crate::text_format::key_printable(m[i as int].0));
            assert(data_text_ok(m[i as int].1, metadata@, (ind + 6) as nat));
        }
        key_to_string(&pairs[i].0, out, ind);
        pairs[i].1.to_string(metadata, out, ind + 6);
        proof {
            let t = m.subrange(0, i + 1);
            assert(t.subrange(0, t.len() - 1) =~= m.subrange(0, i as int));
            assert(t[t.len() - 1] == m[i as int]);
        }
    }
    assert(m.subrange(0, n as int) =~= m);
}

proof fn lemma_props_text_push(s: Seq<PropertyModel>, ind: nat)
    requires
        s.len() > 0,
    ensures
        props_text(s, ind) == props_text(s.drop_last(), ind) + txt(spaces(ind)) + prop_text(s.last(), ind),
    decreases s.len(),
{
    if s.len() == 1 {
        assert(s.drop_last() =~= Seq::<PropertyModel>::empty());
        assert(s.subrange(1, 1) =~= Seq::<PropertyModel>::empty());
        assert(props_text(s, ind) =~= props_text(s.drop_last(), ind) + txt(spaces(ind)) + prop_text(s.last(), ind));
    } else {
        let t = s.subrange(1, s.len() as int);
        lemma_props_text_push(t, ind);
        assert(t.drop_last() =~= s.drop_last().subrange(1, s.len() - 1));
        assert(t.last() == s.last());
        assert(s.drop_last()[0] == s[0]);
        assert(props_text(s, ind) =~= props_text(s.drop_last(), ind) + txt(spaces(ind)) + prop_text(s.last(), ind));
    }
}

/// Writes properties, each after `ind` spaces.
fn props_to_string(props: &Vec<UObjectProperty>, out: &mut Vec<TextPiece>, ind: usize)
    requires
        forall|j: int| 0 <= j < props@.len() ==> prop_text_ok(#[trigger] properties_model(props@)[j], ind as nat),
    ensures
        pieces(final(out)@) == pieces(old(out)@) + props_text(properties_model(props@), ind as nat),
        forall|j: int|
            0 <= j < props@.len() ==> b64s(
                (#[trigger] properties_model(props@)[j]).data,
                properties_model(props@)[j].metadata,
            ),
    decreases props,
{
    let ghost m = properties_model(props@);
    let ghost start = pieces(out@);
    let pre = spaces_vec(ind);
    let n = props.len();
    assert(m.subrange(0, 0) =~= Seq::<PropertyModel>::empty());
    for i in 0..n
        invariant
            n == props@.len(),
            m == properties_model(props@),
            pre@ == spaces(ind as nat),
            forall|j: int| 0 <= j < n ==> prop_text_ok(#[trigger] m[j], ind as nat),
            pieces(out@) == start + props_text(m.subrange(0, i as int), ind as nat),
            forall|j: int| 0 <= j < i ==> b64s((#[trigger] m[j]).data, m[j].metadata),
    {
        proof {
            assert(decreases_to!(props => props@[i as int]));
            assert(m[i as int] == props@[i as int]@);
        }
        emit(out, &pre);
        props[i].to_string(out, ind);
        proof {
            let t = m.subrange(0, i + 1);
            lemma_props_text_push(t, ind as nat);
            assert(t.drop_last() =~= m.subrange(0, i as int));
            assert(t.last() == m[i as int]);
        }
    }
    assert(m.subrange(0, n as int) =~= m);
}

impl UObjectProperty {
    /// Writes the property as text: its name, its array index where it is
    /// not zero, and its value at an indentation of `indent_spaces`.
    pub fn to_string(&self, out: &mut Vec<TextPiece>, indent_spaces: usize)
        requires
            prop_text_ok(self@, indent_spaces as nat),
        ensures
            pieces(final(out)@) == pieces(old(out)@) + prop_text(self@, indent_spaces as nat),
            b64s(self@.data, self@.metadata),
        decreases self,
    {
        let ghost start = pieces(out@);
        let name = chars_of(self.header.name.as_str());
        if self.header.arr_index == 0 {
            let none: Vec<char> = Vec::new();
            emit(out, &line3(&name, "", &none, ": "));
            assert(none@ =~= Seq::<char>::empty());
            proof {
                reveal_strlit("");
            }
            assert(""@ =~= Seq::<char>::empty());
        } else {
            emit(out, &line3(&name, "[", &dec_chars(self.header.arr_index as u64), "]: "));
        }
        assert(decreases_to!(self => self.data));
        self.data.to_string(&self.metadata, out, indent_spaces);
        assert(pieces(out@) =~= start + prop_text(self@, indent_spaces as nat));
    }
}

impl UObjectSummary {
    /// The summary as text: its bytes in base64.
    pub fn to_string(&self) -> (s: String)
        requires
            summary_ok(self@),
            summary_bytes(self@).len() <= usize::MAX / 2,
        ensures
            s@ == crate::b64::base64_encoded(summary_bytes(self@)),
            b64_ok(summary_bytes(self@)),
            crate::laws::summary_roundtrips(self@) ==> crate::text_parse::summary_from_text(s@)
                == Ok::<SummaryModel, crate::text_parse::TextError>(crate::laws::unpadded(self@)),
    {
        let bytes = self.to_bytes();
        let s = base64_encode(bytes.as_slice());
        proof {
            if crate::laws::summary_roundtrips(self@) {
                crate::laws::lemma_summary_roundtrip(self@);
            }
        }
        s
    }
}

impl IoUObject {
    /// The object as text: the summary line, then the properties under
    /// `contents:`, each indented by two spaces.
    pub fn to_string(&self) -> (out: Vec<TextPiece>)
        requires
            object_text_ok(self@),
        ensures
            pieces(out@) == object_text(self@),
            forall|r: spec_fn(u32) -> Seq<char>, fl: Seq<(Seq<char>, Option<u32>)>|
                #[trigger] text_roundtrips(self@, r, fl) ==> parse_object_text(lines(flat(pieces(out@), r)), fl)
                    == Ok::<ObjectModel, TextError>(crate::laws::unpadded_object(self@)),
    {
        let mut out: Vec<TextPiece> = Vec::new();
        let summary = self.summary.to_string();
        let mut line: Vec<char> = Vec::new();
        append_str(&mut line, "summary: ");
        append_str(&mut line, summary.as_str());
        append_str(&mut line, "\n");
        assert(pieces(out@) =~= Seq::<PieceModel>::empty());
        emit(&mut out, &line);
        emit_str(&mut out, "contents:\n");
        assert(forall|j: int|
            0 <= j < self.properties@.len() ==> prop_text_ok(
                #[trigger] properties_model(self.properties@)[j],
                2,
            )) by {
            assert(self@.properties == properties_model(self.properties@));
        }
        props_to_string(&self.properties, &mut out, 2);
        assert(pieces(out@) =~= object_text(self@));
        proof {
            assert(self@.properties == properties_model(self.properties@));
            assert forall|r: spec_fn(u32) -> Seq<char>, fl: Seq<(Seq<char>, Option<u32>)>|
                #[trigger] text_roundtrips(self@, r, fl) implies parse_object_text(lines(flat(pieces(out@), r)), fl)
                    == Ok::<ObjectModel, TextError>(crate::laws::unpadded_object(self@)) by {
                lemma_text_roundtrip(self@, r, fl);
            }
        }
        out
    }

    /// Whether the object can be written as text: see `object_text_ok`.
    pub fn can_write_text(&self) -> (b: bool)
        ensures
            b == object_text_ok(self@),
    {
        let s = &self.summary;
        if s.name_map_type.len() < s.name_map.len() {
            return false;
        }
        assert(summary_ok(s@));
        let bytes = s.to_bytes();
        if bytes.len() > usize::MAX / 2 {
            return false;
        }
        let b = props_writable(&self.properties, 2);
        assert(self@.properties == properties_model(self.properties@));
        b
    }
}

/// Whether a value can be written as text: see `data_text_ok`.
fn data_text_writable(d: &UObjectPropertyData, m: &UObjectPropertyMetadata, ind: usize) -> (b: bool)
    ensures
        b == data_text_ok(d@, m@, ind as nat),
    decreases d,
{
    if ind > usize::MAX - 6 {
        return false;
    }
    match d {
        UObjectPropertyData::Array(items, _) => {
            assert(d@->Array_0 =~= items_model(items@));
            match m {
                UObjectPropertyMetadata::Array(_) => {
                    let b = items_writable(items, m, ind + 4);
                    assert(b == forall|j: int|
                        0 <= j < d@->Array_0.len() ==> data_text_ok(
                            #[trigger] d@->Array_0[j],
                            m@,
                            (ind + 4) as nat,
                        ));
                    b
                },
                _ => false,
            }
        },
        UObjectPropertyData::Bool => match m {
            UObjectPropertyMetadata::Bool(_) => true,
            _ => false,
        },
        UObjectPropertyData::Byte(_) => match m {
            UObjectPropertyMetadata::Byte(_, _) | UObjectPropertyMetadata::Array(_) => true,
            _ => false,
        },
        UObjectPropertyData::Enum(_) => match m {
            UObjectPropertyMetadata::Enum(_) => true,
            _ => false,
        },
        UObjectPropertyData::Struct(props, raw) => {
            assert(d@->Struct_0 =~= properties_model(props@));
            let sizes_ok = match m {
                UObjectPropertyMetadata::Struct(data) => data.len() <= usize::MAX / 2 && raw.len()
                    <= usize::MAX / 2,
                _ => true,
            };
            sizes_ok && props_writable(props, ind + 2)
        },
        UObjectPropertyData::MapEntries(pairs) => {
            assert(d@->MapEntries_0 =~= pairs_model(pairs@));
            match m {
                UObjectPropertyMetadata::MapTypes(_, _) => pairs_writable(pairs, m, ind + 6),
                _ => false,
            }
        },
        _ => true,
    }
}

fn items_writable(items: &Vec<UObjectPropertyData>, m: &UObjectPropertyMetadata, ind: usize) -> (b: bool)
    ensures
        b == forall|j: int| 0 <= j < items@.len() ==> data_text_ok(#[trigger] items_model(items@)[j], m@, ind as nat),
    decreases items,
{
    let ghost model = items_model(items@);
    let n = items.len();
    for i in 0..n
        invariant
            n == items@.len(),
            model == items_model(items@),
            forall|j: int| 0 <= j < i ==> data_text_ok(#[trigger] model[j], m@, ind as nat),
    {
        assert(decreases_to!(items => items@[i as int]));
        if !data_text_writable(&items[i], m, ind) {
            assert(model[i as int] == items@[i as int]@);
            return false;
        }
    }
    true
}

fn props_writable(props: &Vec<UObjectProperty>, ind: usize) -> (b: bool)
    ensures
        b == forall|j: int| 0 <= j < props@.len() ==> prop_text_ok(#[trigger] properties_model(props@)[j], ind as nat),
    decreases props,
{
    let ghost model = properties_model(props@);
    let n = props.len();
    for i in 0..n
        invariant
            n == props@.len(),
            model == properties_model(props@),
            forall|j: int| 0 <= j < i ==> prop_text_ok(#[trigger] model[j], ind as nat),
    {
        assert(decreases_to!(props => props@[i as int]));
        assert(decreases_to!(props@[i as int] => props@[i as int].data));
        if !data_text_writable(&props[i].data, &props[i].metadata, ind) {
            assert(model[i as int] == props@[i as int]@);
            return false;
        }
    }
    true
}

fn pairs_writable(
    pairs: &Vec<(UObjectPropertyData, UObjectPropertyData)>,
    m: &UObjectPropertyMetadata,
    ind: usize,
) -> (b: bool)
    ensures
        b == forall|j: int|
            0 <= j < pairs@.len() ==> crate::text_format::key_printable(#[trigger] pairs_model(pairs@)[j].0)
                && data_text_ok(pairs_model(pairs@)[j].1, m@, ind as nat),
    decreases pairs,
{
    let ghost model = pairs_model(pairs@);
    let n = pairs.len();
    for i in 0..n
        invariant
            n == pairs@.len(),
            model == pairs_model(pairs@),
            forall|j: int|
                0 <= j < i ==> crate::text_format::key_printable(#[trigger] model[j].0) && data_text_ok(
                    model[j].1,
                    m@,
                    ind as nat,
                ),
    {
        assert(decreases_to!(pairs => pairs@[i as int]));
        assert(decreases_to!(pairs@[i as int] => pairs@[i as int].1));
        let printable = match &pairs[i].0 {
            UObjectPropertyData::Enum(_) | UObjectPropertyData::Int32(_)
            | UObjectPropertyData::UInt16(_) | UObjectPropertyData::String(_)
            | UObjectPropertyData::Float(_) | UObjectPropertyData::Byte(_) => true,
            _ => false,
        };
        assert(model[i as int] == (pairs@[i as int].0@, pairs@[i as int].1@));
        assert(printable == crate::text_format::key_printable(model[i as int].0));
        if !printable || !data_text_writable(&pairs[i].1, m, ind) {
            return false;
        }
    }
    assert(model == pairs_model(pairs@));
    true
}

} // verus!
