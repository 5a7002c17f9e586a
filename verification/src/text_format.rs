//! The text form of a package: an indented, YAML-like listing of its
//! properties, stated as functions on character sequences.
//!
//! Floats are written with Rust's shortest round-trip formatting, which is
//! not modelled here: the text is a sequence of pieces, literal text or the
//! bit pattern of a float that the caller formats.

use crate::b64::base64_encoded;
use crate::chars::replace;
use crate::format::{summary_bytes, summary_ok};
use crate::numtext::{dec, hex, signed_dec};
use crate::types::{DataModel, MetadataModel, ObjectModel, PropertyModel};
use vstd::prelude::*;

verus! {

/// A piece of text output.
#[derive(Debug)]
pub enum TextPiece {
    /// Literal text.
    Text(String),
    /// A 32-bit float, by its bit pattern, written as `{}` writes an `f32`.
    Float(u32),
}

/// Model of a piece of text output.
pub enum PieceModel {
    Text(Seq<char>),
    Float(u32),
}

impl View for TextPiece {
    type V = PieceModel;

    open spec fn view(&self) -> PieceModel {
        match self {
            TextPiece::Text(s) => PieceModel::Text(s@),
            TextPiece::Float(b) => PieceModel::Float(*b),
        }
    }
}

/// The models of a sequence of pieces.
pub open spec fn pieces(v: Seq<TextPiece>) -> Seq<PieceModel> {
    Seq::new(v.len(), |i: int| v[i]@)
}

/// `n` spaces.
pub open spec fn spaces(n: nat) -> Seq<char> {
    Seq::new(n, |i: int| ' ')
}

/// A single piece of literal text.
pub open spec fn txt(s: Seq<char>) -> Seq<PieceModel> {
    seq![PieceModel::Text(s)]
}

/// `s` with line breaks escaped as `\n`.
pub open spec fn escape_newlines(s: Seq<char>) -> Seq<char> {
    replace(s, seq!['\n'], seq!['\\', 'n'])
}

/// The text of a value under its property's metadata, at an indentation of
/// `ind` spaces. Items and map values are written under the metadata of
/// the array or map that holds them.
pub open spec fn data_text(d: DataModel, m: MetadataModel, ind: nat) -> Seq<PieceModel>
    decreases d,
{
    let pre = spaces(ind + 2);
    match d {
        DataModel::Array(items, schema) => {
            let item_type = match m {
                MetadataModel::Array(t) => t,
                _ => Seq::empty(),
            };
            txt("!Array\n"@) + txt(pre + "item_type: "@ + item_type + "\n"@) + match schema {
                Some((h, n)) => txt(pre + "item_schema:\n"@) + txt(pre + "  name: "@ + h.name + "\n"@)
                    + txt(pre + "  type: "@ + h.prop_type + "\n"@) + txt(
                    pre + "array_name: "@ + n + "\n"@,
                ),
                None => seq![],
            } + txt(pre + "items:\n"@) + items_text(items, m, ind)
        },
        DataModel::Bool => match m {
            MetadataModel::Bool(true) => txt("true\n"@),
            _ => txt("false\n"@),
        },
        DataModel::Byte(v) => {
            let (e, x) = match m {
                MetadataModel::Byte(e, x) => (e, x),
                _ => (0u64, 0u8),
            };
            txt(
                "!ByteProperty "@ + hex(e as nat) + " "@ + hex(x as nat) + " "@ + hex(v as nat)
                    + "\n"@,
            )
        },
        DataModel::Enum(s) => {
            let n = match m {
                MetadataModel::Enum(n) => n,
                _ => Seq::empty(),
            };
            txt("!EnumProperty "@ + n + " "@ + replace(s, "::"@, "->"@) + "\n"@)
        },
        DataModel::Struct(props, raw) => (match m {
            MetadataModel::Struct(data) => txt(
                "!struct "@ + base64_encoded(data) + " "@ + base64_encoded(raw),
            ),
            _ => seq![],
        }) + txt("\n"@) + props_text(props, ind + 2),
        DataModel::Float(b) => seq![PieceModel::Float(b)] + txt("\n"@),
        DataModel::String(s) => if s.len() == 0 {
            txt("!EmptyString\n"@)
        } else {
            txt("\""@ + escape_newlines(s) + "\"\n"@)
        },
        DataModel::StringUtf16(s) => txt("!utf16 "@ + escape_newlines(s) + "\n"@),
        DataModel::MapEntries(pairs) => {
            let (k, v) = match m {
                MetadataModel::MapTypes(k, v) => (k, v),
                _ => (Seq::empty(), Seq::empty()),
            };
            txt("!Map\n"@) + txt(pre + "key_type: "@ + k + "\n"@) + txt(pre + "val_type: "@ + v + "\n"@)
                + txt(pre + "map_data:\n"@) + pairs_text(pairs, m, ind)
        },
        DataModel::Name(s) => txt("!name "@ + s + "\n"@),
        DataModel::UInt16(v) => txt("!u16 "@ + dec(v as nat) + "\n"@),
        DataModel::UInt32(v) => txt("!u32 "@ + dec(v as nat) + "\n"@),
        DataModel::Int8(v) => txt("!i8 "@ + signed_dec(v as int) + "\n"@),
        DataModel::Int16(v) => txt("!i16 "@ + signed_dec(v as int) + "\n"@),
        DataModel::Int32(v) => txt("!i32 "@ + signed_dec(v as int) + "\n"@),
    }
}

/// The numbered items of an array.
pub open spec fn items_text(items: Seq<DataModel>, m: MetadataModel, ind: nat) -> Seq<PieceModel>
    decreases items,
{
    if items.len() == 0 {
        seq![]
    } else {
        let k = items.len() - 1;
        items_text(items.subrange(0, k), m, ind) + txt(
            spaces(ind + 2) + "- "@ + dec(k as nat) + ":"@,
        ) + data_text(items[k], m, ind + 4)
    }
}

/// The text of a map key, between the entry's dash and its colon.
pub open spec fn key_text(k: DataModel, ind: nat) -> Seq<PieceModel> {
    let pre = spaces(ind + 4) + "- "@;
    match k {
        DataModel::Enum(s) => txt(pre + replace(s, "::"@, "->"@) + ":"@),
        DataModel::Int32(v) => txt(pre + signed_dec(v as int) + ":"@),
        DataModel::UInt16(v) => txt(pre + dec(v as nat) + ":"@),
        DataModel::String(s) => txt(pre + s + ":"@),
        DataModel::Float(b) => txt(pre) + seq![PieceModel::Float(b)] + txt(":"@),
        DataModel::Byte(v) => txt(pre + hex(v as nat) + ":"@),
        _ => seq![],
    }
}

/// The entries of a map.
pub open spec fn pairs_text(pairs: Seq<(DataModel, DataModel)>, m: MetadataModel, ind: nat) -> Seq<
    PieceModel,
>
    decreases pairs,
{
    if pairs.len() == 0 {
        seq![]
    } else {
        let k = pairs.len() - 1;
        pairs_text(pairs.subrange(0, k), m, ind) + key_text(pairs[k].0, ind) + data_text(
            pairs[k].1,
            m,
            ind + 6,
        )
    }
}

/// The text of a property: its name, its array index where it is not zero,
/// and its value.
pub open spec fn prop_text(p: PropertyModel, ind: nat) -> Seq<PieceModel>
    decreases p,
{
    let h = p.header;
    let head = if h.arr_index == 0 {
        txt(h.name + ": "@)
    } else {
        txt(h.name + "["@ + dec(h.arr_index as nat) + "]: "@)
    };
    head + data_text(p.data, p.metadata, ind)
}

/// Properties, each on a line indented by `ind` spaces.
pub open spec fn props_text(props: Seq<PropertyModel>, ind: nat) -> Seq<PieceModel>
    decreases props,
{
    if props.len() == 0 {
        seq![]
    } else {
        txt(spaces(ind)) + prop_text(props[0], ind) + props_text(
            props.subrange(1, props.len() as int),
            ind,
        )
    }
}

/// The text of a package object: the summary's bytes in base64, then its
/// properties.
pub open spec fn object_text(o: ObjectModel) -> Seq<PieceModel> {
    txt("summary: "@ + base64_encoded(summary_bytes(o.summary)) + "\n"@) + txt("contents:\n"@)
        + props_text(o.properties, 2)
}

/// A map key has a text form.
pub open spec fn key_printable(k: DataModel) -> bool {
    match k {
        DataModel::Enum(_) | DataModel::Int32(_) | DataModel::UInt16(_) | DataModel::String(_)
        | DataModel::Float(_) | DataModel::Byte(_) => true,
        _ => false,
    }
}

/// A value can be written as text at indentation `ind`: its metadata is of
/// the kind its variant needs, every map key has a text form, base64 input
/// lengths stay within the encoder's bound, and indentations fit in a
/// `usize`.
pub open spec fn data_text_ok(d: DataModel, m: MetadataModel, ind: nat) -> bool
    decreases d,
{
    &&& ind + 6 <= usize::MAX
    &&& match d {
        DataModel::Array(items, _) => {
            &&& m is Array
            &&& forall|i: int| 0 <= i < items.len() ==> data_text_ok(#[trigger] items[i], m, ind + 4)
        },
        DataModel::Bool => m is Bool,
        DataModel::Byte(_) => m is Byte || m is Array,
        DataModel::Enum(_) => m is Enum,
        DataModel::Struct(props, raw) => {
            &&& (m matches MetadataModel::Struct(data) ==> data.len() <= usize::MAX / 2 && raw.len()
                <= usize::MAX / 2)
            &&& forall|i: int| 0 <= i < props.len() ==> prop_text_ok(#[trigger] props[i], ind + 2)
        },
        DataModel::MapEntries(pairs) => {
            &&& m is MapTypes
            &&& forall|i: int|
                0 <= i < pairs.len() ==> key_printable(#[trigger] pairs[i].0) && data_text_ok(
                    pairs[i].1,
                    m,
                    ind + 6,
                )
        },
        _ => true,
    }
}

/// A property can be written as text at indentation `ind`.
pub open spec fn prop_text_ok(p: PropertyModel, ind: nat) -> bool
    decreases p,
{
    data_text_ok(p.data, p.metadata, ind)
}

/// An object can be written as text: its summary can be written as bytes
/// and encoded, and each property can be written as text.
pub open spec fn object_text_ok(o: ObjectModel) -> bool {
    &&& summary_ok(o.summary)
    &&& summary_bytes(o.summary).len() <= usize::MAX / 2
    &&& forall|i: int| 0 <= i < o.properties.len() ==> prop_text_ok(#[trigger] o.properties[i], 2)
}

} // verus!
