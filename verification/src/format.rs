//! The binary layout of a package, stated as functions on byte sequences:
//! what each value is written as, and what reading a position yields.

use crate::le_bytes::{get16, get32, get64, le16, le32, le64};
use crate::names::{in_map, index_of};
use crate::text_codec::{decode_utf16, encode_utf16, utf8_of};
use crate::types::{
    kind_of, DataModel, HeaderModel, MetadataModel, ObjectModel, PropertyKind, PropertyModel,
    StringType, SummaryModel, UObjectSummaryHeader,
};
use vstd::prelude::*;
use vstd::utf8::*;

verus! {

/// Why bytes could not be read as a package.
#[derive(Clone, Copy, PartialEq, Eq, Structural, Debug)]
pub enum UassetError {
    /// The input ends inside a value.
    UnexpectedEnd,
    /// A name index lies beyond the name map.
    NameIndexOutOfRange,
    /// A name or string is not valid UTF-8.
    InvalidUtf8,
    /// A name or string is not valid UTF-16.
    InvalidUtf16,
    /// A string's length or terminator is wrong.
    MalformedString,
    /// A string length that has no positive counterpart.
    InvalidStringLength,
    /// The name map's hash table is too small to hold a name count.
    InvalidNameCount,
    /// The end of the graph data lies before the name map's end or overflows.
    InvalidGraphDataEnd,
    /// An array of structs has no item schema.
    MissingArrayItemSchema,
    /// The padding after an array of structs' schema is not zero.
    NonZeroArrayPadding,
    /// A property's metadata does not fit its type.
    MetadataMismatch,
}

// ---------------------------------------------------------------------
// Writing
// ---------------------------------------------------------------------

/// The little-endian bytes of a sequence of UTF-16 code units.
pub open spec fn units_bytes(u: Seq<u16>) -> Seq<u8>
    decreases u.len(),
{
    if u.len() == 0 {
        seq![]
    } else {
        units_bytes(u.subrange(0, u.len() - 1)) + le16(u[u.len() - 1])
    }
}

/// A property tag; a tag named `None` is only the name index, the marker
/// that ends a property list.
pub open spec fn header_bytes(h: HeaderModel, map: Seq<Seq<char>>, data_size: usize) -> Seq<u8> {
    if h.name == "None"@ {
        le64(index_of(map, h.name))
    } else {
        le64(index_of(map, h.name)) + le64(index_of(map, h.prop_type)) + le32(data_size as u32)
            + le32(h.arr_index as u32)
    }
}

pub open spec fn metadata_bytes(m: MetadataModel, map: Seq<Seq<char>>) -> Seq<u8> {
    match m {
        MetadataModel::Array(t) => le64(index_of(map, t)) + seq![0u8],
        MetadataModel::Bool(v) => seq![if v { 1u8 } else { 0u8 }, 0u8],
        MetadataModel::Byte(e, v) => le64(e) + seq![v],
        MetadataModel::Enum(t) => le64(index_of(map, t)) + seq![0u8],
        MetadataModel::MapTypes(k, v) => le64(index_of(map, k)) + le64(index_of(map, v)) + seq![
            0u8,
        ] + le32(0),
        MetadataModel::Struct(d) => d,
        MetadataModel::Empty => seq![0u8],
    }
}

/// Seventeen zero bytes.
pub open spec fn zeros17() -> Seq<u8> {
    Seq::new(17, |i: int| 0u8)
}

/// The bytes of a string value: a length counting the terminator, the
/// characters, and the terminator; the empty string is a zero length alone.
pub open spec fn string_bytes(s: Seq<char>) -> Seq<u8> {
    if s.len() == 0 {
        le32(0)
    } else {
        let b = utf8_of(s);
        le32((b.len() + 1) as u32) + b + seq![0u8]
    }
}

/// The bytes of a UTF-16 string value: the negated length counting the
/// terminator, the code units, and a zero unit.
pub open spec fn string_utf16_bytes(s: Seq<char>) -> Seq<u8> {
    let u = encode_utf16(s);
    le32((-(((u.len() + 1) as i32) as int)) as u32) + units_bytes(u) + le16(0)
}

pub open spec fn data_bytes(d: DataModel, map: Seq<Seq<char>>) -> Seq<u8>
    decreases d,
{
    match d {
        DataModel::Array(items, schema) => {
            let body = items_bytes(items, map);
            le32(items.len() as u32) + match schema {
                Some((h, n)) => header_bytes(h, map, body.len() as usize) + le64(index_of(map, n))
                    + zeros17(),
                None => seq![],
            } + body
        },
        DataModel::Bool => seq![],
        DataModel::Byte(v) => seq![v],
        DataModel::Enum(s) => le64(index_of(map, s)),
        DataModel::Struct(props, raw) => if props.len() > 0 {
            props_bytes(props, map) + le64(index_of(map, "None"@))
        } else {
            raw
        },
        DataModel::Float(b) => le32(b),
        DataModel::String(s) => string_bytes(s),
        DataModel::StringUtf16(s) => string_utf16_bytes(s),
        DataModel::MapEntries(pairs) => le32(pairs.len() as u32) + pairs_bytes(pairs, map),
        DataModel::Name(s) => le64(index_of(map, s)),
        DataModel::UInt16(v) => le16(v),
        DataModel::UInt32(v) => le32(v),
        DataModel::Int8(v) => seq![v as u8],
        DataModel::Int16(v) => le16(v as u16),
        DataModel::Int32(v) => le32(v as u32),
    }
}

pub open spec fn items_bytes(items: Seq<DataModel>, map: Seq<Seq<char>>) -> Seq<u8>
    decreases items,
{
    if items.len() == 0 {
        seq![]
    } else {
        items_bytes(items.subrange(0, items.len() - 1), map) + data_bytes(
            items[items.len() - 1],
            map,
        )
    }
}

pub open spec fn pairs_bytes(pairs: Seq<(DataModel, DataModel)>, map: Seq<Seq<char>>) -> Seq<u8>
    decreases pairs,
{
    if pairs.len() == 0 {
        seq![]
    } else {
        pairs_bytes(pairs.subrange(0, pairs.len() - 1), map) + data_bytes(
            pairs[pairs.len() - 1].0,
            map,
        ) + data_bytes(pairs[pairs.len() - 1].1, map)
    }
}

pub open spec fn property_bytes(p: PropertyModel, map: Seq<Seq<char>>) -> Seq<u8>
    decreases p,
{
    let data = data_bytes(p.data, map);
    if p.header.name == "None"@ {
        header_bytes(p.header, map, data_size(p.data, map) as usize)
    } else {
        header_bytes(p.header, map, data_size(p.data, map) as usize) + metadata_bytes(
            p.metadata,
            map,
        ) + data
    }
}

pub open spec fn props_bytes(props: Seq<PropertyModel>, map: Seq<Seq<char>>) -> Seq<u8>
    decreases props,
{
    if props.len() == 0 {
        seq![]
    } else {
        property_bytes(props[0], map) + props_bytes(props.subrange(1, props.len() as int), map)
    }
}

/// The size that a value's writer reports, which becomes the data size of
/// its tag; it differs from the bytes written for maps and for lists that
/// hold `None` tags.
pub open spec fn data_size(d: DataModel, map: Seq<Seq<char>>) -> int
    decreases d,
{
    match d {
        DataModel::Array(items, schema) => 4 + match schema {
            Some(_) => 24int + 8 + 17,
            None => 0int,
        } + items_bytes(items, map).len(),
        DataModel::Bool => 0,
        DataModel::Byte(_) => 1,
        DataModel::Enum(_) => 8,
        DataModel::Struct(props, raw) => if props.len() > 0 {
            props_size(props, map) + 8
        } else {
            raw.len() as int
        },
        DataModel::Float(_) => 4,
        DataModel::String(s) => if s.len() == 0 {
            4
        } else {
            4 + utf8_of(s).len() as int + 1
        },
        DataModel::StringUtf16(s) => 4 + (encode_utf16(s).len() as int + 1) * 2,
        DataModel::MapEntries(pairs) => 8 + pairs_size(pairs, map),
        DataModel::Name(_) => 8,
        DataModel::UInt16(_) => 2,
        DataModel::UInt32(_) => 4,
        DataModel::Int8(_) => 1,
        DataModel::Int16(_) => 2,
        DataModel::Int32(_) => 4,
    }
}

pub open spec fn pairs_size(pairs: Seq<(DataModel, DataModel)>, map: Seq<Seq<char>>) -> int
    decreases pairs,
{
    if pairs.len() == 0 {
        0
    } else {
        pairs_size(pairs.subrange(0, pairs.len() - 1), map) + data_size(
            pairs[pairs.len() - 1].0,
            map,
        ) + data_size(pairs[pairs.len() - 1].1, map)
    }
}

/// The size that a property's writer reports.
pub open spec fn property_size(p: PropertyModel, map: Seq<Seq<char>>) -> int
    decreases p,
{
    if p.header.name == "None"@ {
        24
    } else {
        24 + data_bytes(p.data, map).len() as int + metadata_bytes(p.metadata, map).len() as int
    }
}

pub open spec fn props_size(props: Seq<PropertyModel>, map: Seq<Seq<char>>) -> int
    decreases props,
{
    if props.len() == 0 {
        0
    } else {
        property_size(props[0], map) + props_size(props.subrange(1, props.len() as int), map)
    }
}

/// The 64 bytes of a summary header.
pub open spec fn summary_header_bytes(h: UObjectSummaryHeader) -> Seq<u8> {
    le64(h.name) + le64(h.source_name) + le32(h.package_flags) + le32(h.cooked_header_size) + le32(
        h.name_map_names_offset as u32,
    ) + le32(h.name_map_names_size as u32) + le32(h.name_map_hashes_offset as u32) + le32(
        h.name_map_hashes_size as u32,
    ) + le32(h.import_map_offset as u32) + le32(h.export_map_offset as u32) + le32(
        h.export_bundles_offset as u32,
    ) + le32(h.graph_data_offset as u32) + le32(h.graph_data_size as u32) + le32(h.pad as u32)
}

/// One name-map entry written at offset `at` of the summary: a big-endian
/// length whose top bit marks UTF-16, then the characters; UTF-16 names are
/// aligned to an even offset.
pub open spec fn name_entry_bytes(name: Seq<char>, t: StringType, at: int) -> Seq<u8> {
    match t {
        StringType::Utf16 => {
            let u = encode_utf16(name);
            seq![((u.len() / 256) as u8) | 0x80u8, (u.len() % 256) as u8] + if (at + 2) % 2 > 0 {
                seq![0u8]
            } else {
                seq![]
            } + units_bytes(u)
        },
        StringType::Utf8 => {
            let b = utf8_of(name);
            seq![(b.len() / 256) as u8, (b.len() % 256) as u8] + b
        },
    }
}

/// The name-map entries of `names`, the first written at offset `base`.
pub open spec fn names_bytes(names: Seq<Seq<char>>, types: Seq<StringType>, base: int) -> Seq<u8>
    decreases names.len(),
{
    if names.len() == 0 {
        seq![]
    } else {
        let prefix = names_bytes(names.drop_last(), types, base);
        prefix + name_entry_bytes(names.last(), types[names.len() - 1], base + prefix.len())
    }
}

/// The bytes of a summary.
pub open spec fn summary_bytes(s: SummaryModel) -> Seq<u8> {
    summary_header_bytes(s.header) + names_bytes(s.name_map, s.name_map_type, 64)
        + s.remaining_bytes
}

/// The bytes of a package object: summary, properties, the `None` marker
/// and four zero bytes.
pub open spec fn object_bytes(o: ObjectModel) -> Seq<u8> {
    let map = o.summary.name_map;
    summary_bytes(o.summary) + props_bytes(o.properties, map) + le64(index_of(map, "None"@)) + seq![
        0u8,
        0u8,
        0u8,
        0u8,
    ]
}

/// A tag can be written: its names are in the map.
pub open spec fn header_ok(h: HeaderModel, map: Seq<Seq<char>>) -> bool {
    &&& in_map(map, h.name)
    &&& h.name != "None"@ ==> in_map(map, h.prop_type)
}

/// Metadata can be written: its names are in the map.
pub open spec fn metadata_ok(m: MetadataModel, map: Seq<Seq<char>>) -> bool {
    match m {
        MetadataModel::Array(t) => in_map(map, t),
        MetadataModel::Enum(t) => in_map(map, t),
        MetadataModel::MapTypes(k, v) => in_map(map, k) && in_map(map, v),
        _ => true,
    }
}

/// A value can be written: every name it refers to is in the map, every
/// size its writers compute fits in a `usize`, and no UTF-16 string has a
/// length whose negation overflows.
pub open spec fn data_ok(d: DataModel, map: Seq<Seq<char>>) -> bool
    decreases d,
{
    &&& data_size(d, map) <= usize::MAX
    &&& match d {
        DataModel::Array(items, schema) => {
            &&& forall|i: int| 0 <= i < items.len() ==> data_ok(#[trigger] items[i], map)
            &&& match schema {
                Some((h, n)) => header_ok(h, map) && in_map(map, n),
                None => true,
            }
        },
        DataModel::Enum(s) => in_map(map, s),
        DataModel::Name(s) => in_map(map, s),
        DataModel::Struct(props, _) => props.len() > 0 ==> {
            &&& in_map(map, "None"@)
            &&& forall|i: int| 0 <= i < props.len() ==> property_ok(#[trigger] props[i], map)
        },
        DataModel::StringUtf16(s) => ((encode_utf16(s).len() + 1) as i32) != i32::MIN,
        DataModel::MapEntries(pairs) => forall|i: int|
            0 <= i < pairs.len() ==> data_ok(#[trigger] pairs[i].0, map) && data_ok(pairs[i].1, map),
        _ => true,
    }
}

/// A property can be written: its value always (the writer produces it
/// before its tag), its metadata when its tag is not the `None` marker, and
/// the size it reports fits in a `usize`.
pub open spec fn property_ok(p: PropertyModel, map: Seq<Seq<char>>) -> bool
    decreases p,
{
    &&& property_size(p, map) <= usize::MAX
    &&& header_ok(p.header, map)
    &&& data_ok(p.data, map)
    &&& p.header.name != "None"@ ==> metadata_ok(p.metadata, map)
}

/// A summary can be written: every name has an encoding type.
pub open spec fn summary_ok(s: SummaryModel) -> bool {
    s.name_map_type.len() >= s.name_map.len()
}

/// An object can be written: its summary and properties can, the name map
/// holds `None`, and the total length fits in a `usize`.
pub open spec fn object_ok(o: ObjectModel) -> bool {
    &&& summary_ok(o.summary)
    &&& forall|i: int|
        0 <= i < o.properties.len() ==> property_ok(#[trigger] o.properties[i], o.summary.name_map)
    &&& in_map(o.summary.name_map, "None"@)
    &&& object_bytes(o).len() <= usize::MAX
}

// ---------------------------------------------------------------------
// Reading
// ---------------------------------------------------------------------

pub open spec fn rd8(buf: Seq<u8>, pos: int) -> Result<(u8, int), UassetError> {
    if 0 <= pos && pos + 1 <= buf.len() {
        Ok((buf[pos], pos + 1))
    } else {
        Err(UassetError::UnexpectedEnd)
    }
}

pub open spec fn rd16(buf: Seq<u8>, pos: int) -> Result<(u16, int), UassetError> {
    if 0 <= pos && pos + 2 <= buf.len() {
        Ok((get16(buf, pos), pos + 2))
    } else {
        Err(UassetError::UnexpectedEnd)
    }
}

pub open spec fn rd32(buf: Seq<u8>, pos: int) -> Result<(u32, int), UassetError> {
    if 0 <= pos && pos + 4 <= buf.len() {
        Ok((get32(buf, pos), pos + 4))
    } else {
        Err(UassetError::UnexpectedEnd)
    }
}

pub open spec fn rd64(buf: Seq<u8>, pos: int) -> Result<(u64, int), UassetError> {
    if 0 <= pos && pos + 8 <= buf.len() {
        Ok((get64(buf, pos), pos + 8))
    } else {
        Err(UassetError::UnexpectedEnd)
    }
}

/// The name at a stored index.
pub open spec fn name_at(map: Seq<Seq<char>>, idx: u64) -> Result<Seq<char>, UassetError> {
    if (idx as usize) < map.len() {
        Ok(map[(idx as usize) as int])
    } else {
        Err(UassetError::NameIndexOutOfRange)
    }
}

/// `n` UTF-16 code units stored little-endian from `start`.
pub open spec fn units_at(buf: Seq<u8>, start: int, n: int) -> Seq<u16> {
    Seq::new(n as nat, |i: int| get16(buf, start + 2 * i))
}

/// Reads a property tag: `None` for the end-of-list marker, else the tag
/// and the data size it announces.
pub open spec fn parse_header(buf: Seq<u8>, pos: int, map: Seq<Seq<char>>) -> Result<
    (Option<(HeaderModel, usize)>, int),
    UassetError,
> {
    match rd64(buf, pos) {
        Err(e) => Err(e),
        Ok((ni, p1)) => match name_at(map, ni) {
            Err(e) => Err(e),
            Ok(name) => if name == "None"@ {
                Ok((None, p1))
            } else {
                match rd64(buf, p1) {
                    Err(e) => Err(e),
                    Ok((ti, p2)) => match name_at(map, ti) {
                        Err(e) => Err(e),
                        Ok(t) => match rd32(buf, p2) {
                            Err(e) => Err(e),
                            Ok((ds, p3)) => match rd32(buf, p3) {
                                Err(e) => Err(e),
                                Ok((ai, p4)) => Ok(
                                    (
                                        Some(
                                            (
                                                HeaderModel {
                                                    name,
                                                    prop_type: t,
                                                    arr_index: ai as usize,
                                                },
                                                ds as usize,
                                            ),
                                        ),
                                        p4,
                                    ),
                                ),
                            },
                        },
                    },
                }
            },
        },
    }
}

/// Reads the metadata that follows a tag of type `t`.
pub open spec fn parse_metadata(buf: Seq<u8>, pos: int, t: Seq<char>, map: Seq<Seq<char>>) -> Result<
    (MetadataModel, int),
    UassetError,
> {
    match kind_of(t) {
        PropertyKind::ArrayProperty => match rd64(buf, pos) {
            Err(e) => Err(e),
            Ok((i, p1)) => match name_at(map, i) {
                Err(e) => Err(e),
                Ok(item) => match rd8(buf, p1) {
                    Err(e) => Err(e),
                    Ok((_, p2)) => Ok((MetadataModel::Array(item), p2)),
                },
            },
        },
        PropertyKind::BoolProperty => match rd8(buf, pos) {
            Err(e) => Err(e),
            Ok((v, p1)) => match rd8(buf, p1) {
                Err(e) => Err(e),
                Ok((_, p2)) => Ok((MetadataModel::Bool(v > 0), p2)),
            },
        },
        PropertyKind::ByteProperty => match rd64(buf, pos) {
            Err(e) => Err(e),
            Ok((e, p1)) => match rd8(buf, p1) {
                Err(err) => Err(err),
                Ok((v, p2)) => Ok((MetadataModel::Byte(e, v), p2)),
            },
        },
        PropertyKind::EnumProperty => match rd64(buf, pos) {
            Err(e) => Err(e),
            Ok((i, p1)) => match rd8(buf, p1) {
                Err(e) => Err(e),
                Ok((_, p2)) => match name_at(map, i) {
                    Err(e) => Err(e),
                    Ok(name) => Ok((MetadataModel::Enum(name), p2)),
                },
            },
        },
        PropertyKind::StructProperty => if 0 <= pos && pos + 25 <= buf.len() {
            Ok((MetadataModel::Struct(buf.subrange(pos, pos + 25)), pos + 25))
        } else {
            Err(UassetError::UnexpectedEnd)
        },
        PropertyKind::MapProperty => match rd64(buf, pos) {
            Err(e) => Err(e),
            Ok((k, p1)) => match name_at(map, k) {
                Err(e) => Err(e),
                Ok(key) => match rd64(buf, p1) {
                    Err(e) => Err(e),
                    Ok((v, p2)) => match name_at(map, v) {
                        Err(e) => Err(e),
                        Ok(value) => match rd8(buf, p2) {
                            Err(e) => Err(e),
                            Ok((_, p3)) => match rd32(buf, p3) {
                                Err(e) => Err(e),
                                Ok((_, p4)) => Ok((MetadataModel::MapTypes(key, value), p4)),
                            },
                        },
                    },
                },
            },
        },
        _ => match rd8(buf, pos) {
            Err(e) => Err(e),
            Ok((_, p1)) => Ok((MetadataModel::Empty, p1)),
        },
    }
}

/// Reads a string value whose stored length is `len`, from `pos` on.
pub open spec fn parse_string_body(buf: Seq<u8>, pos: int, len: i32) -> Result<
    (DataModel, int),
    UassetError,
> {
    if len < 0 {
        if len == i32::MIN {
            Err(UassetError::InvalidStringLength)
        } else {
            let n = -len - 1;
            if pos + 2 * n > buf.len() {
                Err(UassetError::UnexpectedEnd)
            } else {
                match rd16(buf, pos + 2 * n) {
                    Err(e) => Err(e),
                    Ok((t, p)) => if t != 0 {
                        Err(UassetError::MalformedString)
                    } else {
                        match decode_utf16(units_at(buf, pos, n)) {
                            None => Err(UassetError::InvalidUtf16),
                            Some(s) => Ok((DataModel::StringUtf16(s), p)),
                        }
                    },
                }
            }
        }
    } else if len > 0 {
        let n = len - 1;
        if pos + n > buf.len() {
            Err(UassetError::UnexpectedEnd)
        } else {
            match rd8(buf, pos + n) {
                Err(e) => Err(e),
                Ok((t, p)) => if t != 0 {
                    Err(UassetError::MalformedString)
                } else if valid_utf8(buf.subrange(pos, pos + n)) {
                    Ok((DataModel::String(decode_utf8(buf.subrange(pos, pos + n))), p))
                } else {
                    Err(UassetError::InvalidUtf8)
                },
            }
        }
    } else {
        Ok((DataModel::String(seq![]), pos))
    }
}

/// Reads `expected` raw bytes as a struct without properties.
pub open spec fn parse_raw(buf: Seq<u8>, pos: int, expected: usize) -> Result<
    (DataModel, int),
    UassetError,
> {
    if 0 <= pos && pos + expected <= buf.len() {
        Ok((DataModel::Struct(seq![], buf.subrange(pos, pos + expected)), pos + expected))
    } else {
        Err(UassetError::UnexpectedEnd)
    }
}

/// Reads what precedes the items of an array of structs: the item schema,
/// the array name, and seventeen zero bytes.
pub open spec fn parse_array_schema(buf: Seq<u8>, pos: int, map: Seq<Seq<char>>) -> Result<
    ((HeaderModel, Seq<char>), int),
    UassetError,
> {
    match parse_header(buf, pos, map) {
        Err(e) => Err(e),
        Ok((None, _)) => Err(UassetError::MissingArrayItemSchema),
        Ok((Some((schema, _)), p1)) => match rd64(buf, p1) {
            Err(e) => Err(e),
            Ok((ai, p2)) => match name_at(map, ai) {
                Err(e) => Err(e),
                Ok(array_name) => if p2 + 17 > buf.len() {
                    Err(UassetError::UnexpectedEnd)
                } else if buf.subrange(p2, p2 + 17) != zeros17() {
                    Err(UassetError::NonZeroArrayPadding)
                } else {
                    Ok(((schema, array_name), p2 + 17))
                },
            },
        },
    }
}

/// Reads a value of type `t` at `pos`. `meta` is the metadata of the
/// enclosing property, `expected` the data size its tag announced.
pub open spec fn parse_data(
    buf: Seq<u8>,
    pos: int,
    t: Seq<char>,
    meta: MetadataModel,
    map: Seq<Seq<char>>,
    expected: usize,
) -> Result<(DataModel, int), UassetError>
    decreases buf.len() - pos, 2int, 0int,
{
    if pos < 0 || pos > buf.len() {
        Err(UassetError::UnexpectedEnd)
    } else {
        match kind_of(t) {
            PropertyKind::ArrayProperty => match rd32(buf, pos) {
                Err(e) => Err(e),
                Ok((n, p1)) => match meta {
                    MetadataModel::Array(item) => if item == "StructProperty"@ {
                        match parse_array_schema(buf, p1, map) {
                            Err(e) => Err(e),
                            Ok((schema, p2)) => match parse_items(
                                buf,
                                p2,
                                item,
                                meta,
                                map,
                                expected,
                                n as int,
                            ) {
                                Err(e) => Err(e),
                                Ok((items, p3)) => Ok((DataModel::Array(items, Some(schema)), p3)),
                            },
                        }
                    } else {
                        match parse_items(buf, p1, item, meta, map, expected, n as int) {
                            Err(e) => Err(e),
                            Ok((items, p3)) => Ok((DataModel::Array(items, None), p3)),
                        }
                    },
                    _ => Err(UassetError::MetadataMismatch),
                },
            },
            PropertyKind::BoolProperty => Ok((DataModel::Bool, pos)),
            PropertyKind::ByteProperty => match rd8(buf, pos) {
                Err(e) => Err(e),
                Ok((v, p1)) => Ok((DataModel::Byte(v), p1)),
            },
            PropertyKind::EnumProperty => match rd64(buf, pos) {
                Err(e) => Err(e),
                Ok((i, p1)) => match name_at(map, i) {
                    Err(e) => Err(e),
                    Ok(s) => Ok((DataModel::Enum(s), p1)),
                },
            },
            PropertyKind::StructProperty => match rd64(buf, pos) {
                Err(e) => Err(e),
                Ok((next, _)) => if next == 0 || next >= map.len() {
                    parse_raw(buf, pos, expected)
                } else {
                    match parse_props(buf, pos, map) {
                        Err(e) => Err(e),
                        Ok((props, p1)) => Ok((DataModel::Struct(props, seq![]), p1)),
                    }
                },
            },
            PropertyKind::FloatProperty => match rd32(buf, pos) {
                Err(e) => Err(e),
                Ok((b, p1)) => Ok((DataModel::Float(b), p1)),
            },
            PropertyKind::StrProperty => match rd32(buf, pos) {
                Err(e) => Err(e),
                Ok((len, p1)) => parse_string_body(buf, p1, len as i32),
            },
            PropertyKind::MapProperty => match meta {
                MetadataModel::MapTypes(k, v) => match rd32(buf, pos) {
                    Err(e) => Err(e),
                    Ok((n, p1)) => match parse_pairs(buf, p1, k, v, meta, map, expected, n as int) {
                        Err(e) => Err(e),
                        Ok((pairs, p2)) => Ok((DataModel::MapEntries(pairs), p2)),
                    },
                },
                _ => Err(UassetError::MetadataMismatch),
            },
            PropertyKind::NameProperty => match rd64(buf, pos) {
                Err(e) => Err(e),
                Ok((i, p1)) => match name_at(map, i) {
                    Err(e) => Err(e),
                    Ok(s) => Ok((DataModel::Name(s), p1)),
                },
            },
            PropertyKind::UInt16Property => match rd16(buf, pos) {
                Err(e) => Err(e),
                Ok((v, p1)) => Ok((DataModel::UInt16(v), p1)),
            },
            PropertyKind::UInt32Property => match rd32(buf, pos) {
                Err(e) => Err(e),
                Ok((v, p1)) => Ok((DataModel::UInt32(v), p1)),
            },
            PropertyKind::Int8Property => match rd8(buf, pos) {
                Err(e) => Err(e),
                Ok((v, p1)) => Ok((DataModel::Int8(v as i8), p1)),
            },
            PropertyKind::Int16Property => match rd16(buf, pos) {
                Err(e) => Err(e),
                Ok((v, p1)) => Ok((DataModel::Int16(v as i16), p1)),
            },
            PropertyKind::IntProperty => match rd32(buf, pos) {
                Err(e) => Err(e),
                Ok((v, p1)) => Ok((DataModel::Int32(v as i32), p1)),
            },
            PropertyKind::Other => parse_raw(buf, pos, expected),
        }
    }
}

/// Reads `n` values of type `t`, one after another.
pub open spec fn parse_items(
    buf: Seq<u8>,
    pos: int,
    t: Seq<char>,
    meta: MetadataModel,
    map: Seq<Seq<char>>,
    expected: usize,
    n: int,
) -> Result<(Seq<DataModel>, int), UassetError>
    decreases buf.len() - pos, 3int, n,
{
    if n <= 0 {
        Ok((seq![], pos))
    } else {
        match parse_items(buf, pos, t, meta, map, expected, n - 1) {
            Err(e) => Err(e),
            Ok((items, p)) => if pos <= p <= buf.len() {
                match parse_data(buf, p, t, meta, map, expected) {
                    Err(e) => Err(e),
                    Ok((d, p2)) => Ok((items.push(d), p2)),
                }
            } else {
                Err(UassetError::UnexpectedEnd)
            },
        }
    }
}

/// Reads `n` key-value pairs of the given types.
pub open spec fn parse_pairs(
    buf: Seq<u8>,
    pos: int,
    kt: Seq<char>,
    vt: Seq<char>,
    meta: MetadataModel,
    map: Seq<Seq<char>>,
    expected: usize,
    n: int,
) -> Result<(Seq<(DataModel, DataModel)>, int), UassetError>
    decreases buf.len() - pos, 3int, n,
{
    if n <= 0 {
        Ok((seq![], pos))
    } else {
        match parse_pairs(buf, pos, kt, vt, meta, map, expected, n - 1) {
            Err(e) => Err(e),
            Ok((pairs, p)) => if pos <= p <= buf.len() {
                match parse_data(buf, p, kt, meta, map, expected) {
                    Err(e) => Err(e),
                    Ok((k, p2)) => if p <= p2 <= buf.len() {
                        match parse_data(buf, p2, vt, meta, map, expected) {
                            Err(e) => Err(e),
                            Ok((v, p3)) => Ok((pairs.push((k, v)), p3)),
                        }
                    } else {
                        Err(UassetError::UnexpectedEnd)
                    },
                }
            } else {
                Err(UassetError::UnexpectedEnd)
            },
        }
    }
}

/// Reads one property: `None` at the end-of-list marker.
pub open spec fn parse_property(buf: Seq<u8>, pos: int, map: Seq<Seq<char>>) -> Result<
    (Option<PropertyModel>, int),
    UassetError,
>
    decreases buf.len() - pos, 0int, 0int,
{
    match parse_header(buf, pos, map) {
        Err(e) => Err(e),
        Ok((None, p1)) => Ok((None, p1)),
        Ok((Some((h, size)), p1)) => match parse_metadata(buf, p1, h.prop_type, map) {
            Err(e) => Err(e),
            Ok((m, p2)) => if pos < p2 <= buf.len() {
                match parse_data(buf, p2, h.prop_type, m, map, size) {
                    Err(e) => Err(e),
                    Ok((d, p3)) => Ok((Some(PropertyModel { header: h, metadata: m, data: d }), p3)),
                }
            } else {
                Err(UassetError::UnexpectedEnd)
            },
        },
    }
}

/// Reads properties up to and including the end-of-list marker.
pub open spec fn parse_props(buf: Seq<u8>, pos: int, map: Seq<Seq<char>>) -> Result<
    (Seq<PropertyModel>, int),
    UassetError,
>
    decreases buf.len() - pos, 1int, 0int,
{
    match parse_property(buf, pos, map) {
        Err(e) => Err(e),
        Ok((None, p1)) => Ok((seq![], p1)),
        Ok((Some(prop), p1)) => if pos < p1 <= buf.len() {
            match parse_props(buf, p1, map) {
                Err(e) => Err(e),
                Ok((rest, p2)) => Ok((seq![prop] + rest, p2)),
            }
        } else {
            Err(UassetError::UnexpectedEnd)
        },
    }
}

/// Reads the 64-byte summary header; the padding field reads as zero.
pub open spec fn parse_summary_header(buf: Seq<u8>, pos: int) -> Result<
    (UObjectSummaryHeader, int),
    UassetError,
> {
    if 0 <= pos && pos + 64 <= buf.len() {
        Ok(
            (
                UObjectSummaryHeader {
                    name: get64(buf, pos),
                    source_name: get64(buf, pos + 8),
                    package_flags: get32(buf, pos + 16),
                    cooked_header_size: get32(buf, pos + 20),
                    name_map_names_offset: get32(buf, pos + 24) as i32,
                    name_map_names_size: get32(buf, pos + 28) as i32,
                    name_map_hashes_offset: get32(buf, pos + 32) as i32,
                    name_map_hashes_size: get32(buf, pos + 36) as i32,
                    import_map_offset: get32(buf, pos + 40) as i32,
                    export_map_offset: get32(buf, pos + 44) as i32,
                    export_bundles_offset: get32(buf, pos + 48) as i32,
                    graph_data_offset: get32(buf, pos + 52) as i32,
                    graph_data_size: get32(buf, pos + 56) as i32,
                    pad: 0,
                },
                pos + 64,
            ),
        )
    } else {
        Err(UassetError::UnexpectedEnd)
    }
}

/// Reads one name-map entry.
pub open spec fn parse_name_entry(buf: Seq<u8>, pos: int) -> Result<
    ((Seq<char>, StringType), int),
    UassetError,
> {
    match rd8(buf, pos) {
        Err(e) => Err(e),
        Ok((m1, p1)) => match rd8(buf, p1) {
            Err(e) => Err(e),
            Ok((m2, p2)) => {
                let len = (m1 & 0x7f) as int * 256 + m2 as int;
                if m1 & 0x80 > 0 {
                    match if p2 % 2 > 0 {
                        rd8(buf, p2)
                    } else {
                        Ok((0u8, p2))
                    } {
                        Err(e) => Err(e),
                        Ok((_, p3)) => if p3 + 2 * len > buf.len() {
                            Err(UassetError::UnexpectedEnd)
                        } else {
                            match decode_utf16(units_at(buf, p3, len)) {
                                None => Err(UassetError::InvalidUtf16),
                                Some(s) => Ok(((s, StringType::Utf16), p3 + 2 * len)),
                            }
                        },
                    }
                } else if p2 + len > buf.len() {
                    Err(UassetError::UnexpectedEnd)
                } else if valid_utf8(buf.subrange(p2, p2 + len)) {
                    Ok(((decode_utf8(buf.subrange(p2, p2 + len)), StringType::Utf8), p2 + len))
                } else {
                    Err(UassetError::InvalidUtf8)
                }
            },
        },
    }
}

/// Reads `n` name-map entries.
pub open spec fn parse_names(buf: Seq<u8>, pos: int, n: int) -> Result<
    ((Seq<Seq<char>>, Seq<StringType>), int),
    UassetError,
>
    decreases n,
{
    if n <= 0 {
        Ok(((seq![], seq![]), pos))
    } else {
        match parse_names(buf, pos, n - 1) {
            Err(e) => Err(e),
            Ok(((names, types), p)) => match parse_name_entry(buf, p) {
                Err(e) => Err(e),
                Ok(((s, t), p2)) => Ok(((names.push(s), types.push(t)), p2)),
            },
        }
    }
}

/// Reads a summary at `pos`: header, as many names as the hash table has
/// slots less one, and the bytes up to the end of the graph data.
pub open spec fn parse_summary(buf: Seq<u8>, pos: int) -> Result<(SummaryModel, int), UassetError> {
    match parse_summary_header(buf, pos) {
        Err(e) => Err(e),
        Ok((h, p1)) => if h.name_map_hashes_size < 8 {
            Err(UassetError::InvalidNameCount)
        } else {
            match parse_names(buf, p1, h.name_map_hashes_size / 8 - 1) {
                Err(e) => Err(e),
                Ok(((names, types), p2)) => {
                    let end = h.graph_data_offset as int + h.graph_data_size as int;
                    if end > i32::MAX || end < p2 {
                        Err(UassetError::InvalidGraphDataEnd)
                    } else if end > buf.len() {
                        Err(UassetError::UnexpectedEnd)
                    } else {
                        Ok(
                            (
                                SummaryModel {
                                    header: h,
                                    name_map: names,
                                    name_map_type: types,
                                    remaining_bytes: buf.subrange(p2, end),
                                },
                                end,
                            ),
                        )
                    }
                },
            }
        },
    }
}

/// Reads a package object from the start of `buf`.
pub open spec fn parse_object(buf: Seq<u8>) -> Result<ObjectModel, UassetError> {
    match parse_summary(buf, 0) {
        Err(e) => Err(e),
        Ok((s, p)) => match parse_props(buf, p, s.name_map) {
            Err(e) => Err(e),
            Ok((props, _)) => Ok(ObjectModel { summary: s, properties: props }),
        },
    }
}

} // verus!
