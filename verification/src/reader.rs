//! Reading a package from bytes. Each reader takes the whole input and a
//! position and returns the value and the position after it, exactly as
//! the layout in `format` states.

use crate::format::{
    name_at, parse_array_schema, parse_data, parse_header, parse_items, parse_metadata, parse_name_entry,
    parse_names, parse_object, parse_pairs, parse_property, parse_props, parse_raw,
    parse_string_body, parse_summary, parse_summary_header, rd16, rd32, rd64, rd8, units_at,
    zeros17, UassetError,
};
use crate::le_bytes::{read_u16_at, read_u32_at, read_u64_at};
use crate::names::names_of;
use crate::text_codec::{decode_bytes, decode_units, str_eq};
use crate::types::{
    data_model, header_model, metadata_model, properties_model, property_model, summary_model,
    DataModel, HeaderModel, IoUObject, ObjectModel, MetadataModel, PropertyKind, PropertyModel, StringType,
    SummaryModel, UObjectProperty, UObjectPropertyData, UObjectPropertyHeader,
    UObjectPropertyMetadata, UObjectSummary, UObjectSummaryHeader, property_kind,
};
use vstd::prelude::*;

verus! {

/// A reader's result, with the value taken by its view.
pub open spec fn res_view<T: View>(r: Result<(T, usize), UassetError>) -> Result<
    (T::V, int),
    UassetError,
> {
    match r {
        Ok((v, p)) => Ok((v@, p as int)),
        Err(e) => Err(e),
    }
}

fn read8(buf: &[u8], pos: usize) -> (r: Result<(u8, usize), UassetError>)
    ensures
        res_view(r) == rd8(buf@, pos as int),
{
    if pos < buf.len() {
        Ok((buf[pos], pos + 1))
    } else {
        Err(UassetError::UnexpectedEnd)
    }
}

fn read16(buf: &[u8], pos: usize) -> (r: Result<(u16, usize), UassetError>)
    ensures
        res_view(r) == rd16(buf@, pos as int),
{
    if buf.len() >= 2 && pos <= buf.len() - 2 {
        Ok((read_u16_at(buf, pos), pos + 2))
    } else {
        Err(UassetError::UnexpectedEnd)
    }
}

fn read32(buf: &[u8], pos: usize) -> (r: Result<(u32, usize), UassetError>)
    ensures
        res_view(r) == rd32(buf@, pos as int),
{
    if buf.len() >= 4 && pos <= buf.len() - 4 {
        Ok((read_u32_at(buf, pos), pos + 4))
    } else {
        Err(UassetError::UnexpectedEnd)
    }
}

fn read64(buf: &[u8], pos: usize) -> (r: Result<(u64, usize), UassetError>)
    ensures
        res_view(r) == rd64(buf@, pos as int),
{
    if buf.len() >= 8 && pos <= buf.len() - 8 {
        Ok((read_u64_at(buf, pos), pos + 8))
    } else {
        Err(UassetError::UnexpectedEnd)
    }
}

fn name_at_index(map: &[String], idx: u64) -> (r: Result<String, UassetError>)
    ensures
        match r {
            Ok(s) => name_at(names_of(map@), idx) == Ok::<Seq<char>, UassetError>(s@),
            Err(e) => name_at(names_of(map@), idx) == Err::<Seq<char>, UassetError>(e),
        },
{
    let i = idx as usize;
    if i < map.len() {
        Ok(map[i].clone())
    } else {
        Err(UassetError::NameIndexOutOfRange)
    }
}

/// Copies `buf[start..start + n]`.
fn copy_range(buf: &[u8], start: usize, n: usize) -> (v: Vec<u8>)
    requires
        start + n <= buf@.len(),
    ensures
        v@ == buf@.subrange(start as int, start + n),
{
    let mut v: Vec<u8> = Vec::new();
    let blen = buf.len();
    for i in 0..n
        invariant
            start + n <= buf@.len(),
            blen == buf@.len(),
            v@ == buf@.subrange(start as int, start + i),
    {
        v.push(buf[start + i]);
        assert(buf@.subrange(start as int, start + i + 1) == buf@.subrange(
            start as int,
            start + i,
        ).push(buf@[start + i]));
    }
    v
}

/// Reads `n` little-endian code units from `start`.
fn read_units(buf: &[u8], start: usize, n: usize) -> (u: Vec<u16>)
    requires
        start + 2 * n <= buf@.len(),
    ensures
        u@ == units_at(buf@, start as int, n as int),
{
    let mut u: Vec<u16> = Vec::new();
    let blen = buf.len();
    for i in 0..n
        invariant
            start + 2 * n <= buf@.len(),
            blen == buf@.len(),
            u@ == units_at(buf@, start as int, i as int),
    {
        u.push(read_u16_at(buf, start + 2 * i));
        assert(u@ =~= units_at(buf@, start as int, i + 1));
    }
    u
}

/// The model of a tag reader's result.
pub open spec fn header_res_view(r: Result<(Option<(UObjectPropertyHeader, usize)>, usize), UassetError>) -> Result<
    (Option<(HeaderModel, usize)>, int),
    UassetError,
> {
    match r {
        Ok((Some((h, s)), p)) => Ok((Some((h@, s)), p as int)),
        Ok((None, p)) => Ok((None, p as int)),
        Err(e) => Err(e),
    }
}

impl UObjectPropertyHeader {
    /// Reads a property tag at `pos`; `None` is the end-of-list marker,
    /// else the tag and the data size it announces.
    pub fn from_buffer(buf: &[u8], pos: usize, name_map: &[String]) -> (r: Result<
        (Option<(Self, usize)>, usize),
        UassetError,
    >)
        ensures
            header_res_view(r) == parse_header(buf@, pos as int, names_of(name_map@)),
            r matches Ok((_, p)) ==> pos < p <= buf@.len(),
    {
        let (ni, p1) = read64(buf, pos)?;
        let name = name_at_index(name_map, ni)?;
        if str_eq(name.as_str(), "None") {
            return Ok((None, p1));
        }
        let (ti, p2) = read64(buf, p1)?;
        let prop_type = name_at_index(name_map, ti)?;
        let (ds, p3) = read32(buf, p2)?;
        let (ai, p4) = read32(buf, p3)?;
        Ok((Some((UObjectPropertyHeader { name, prop_type, arr_index: ai as usize }, ds as usize)), p4))
    }
}

impl UObjectPropertyMetadata {
    /// Reads the metadata that follows a tag of type `prop_type`.
    pub fn from_buffer(buf: &[u8], pos: usize, prop_type: &str, name_map: &[String]) -> (r: Result<
        (Self, usize),
        UassetError,
    >)
        ensures
            res_view(r) == parse_metadata(buf@, pos as int, prop_type@, names_of(name_map@)),
            r matches Ok((_, p)) ==> pos < p <= buf@.len(),
    {
        match property_kind(prop_type) {
            PropertyKind::ArrayProperty => {
                let (i, p1) = read64(buf, pos)?;
                let item = name_at_index(name_map, i)?;
                let (_, p2) = read8(buf, p1)?;
                Ok((UObjectPropertyMetadata::Array(item), p2))
            },
            PropertyKind::BoolProperty => {
                let (v, p1) = read8(buf, pos)?;
                let (_, p2) = read8(buf, p1)?;
                Ok((UObjectPropertyMetadata::Bool(v > 0), p2))
            },
            PropertyKind::ByteProperty => {
                let (e, p1) = read64(buf, pos)?;
                let (v, p2) = read8(buf, p1)?;
                Ok((UObjectPropertyMetadata::Byte(e, v), p2))
            },
            PropertyKind::EnumProperty => {
                let (i, p1) = read64(buf, pos)?;
                let (_, p2) = read8(buf, p1)?;
                let name = name_at_index(name_map, i)?;
                Ok((UObjectPropertyMetadata::Enum(name), p2))
            },
            PropertyKind::StructProperty => {
                if buf.len() >= 25 && pos <= buf.len() - 25 {
                    Ok((UObjectPropertyMetadata::Struct(copy_range(buf, pos, 25)), pos + 25))
                } else {
                    Err(UassetError::UnexpectedEnd)
                }
            },
            PropertyKind::MapProperty => {
                let (k, p1) = read64(buf, pos)?;
                let key = name_at_index(name_map, k)?;
                let (v, p2) = read64(buf, p1)?;
                let value = name_at_index(name_map, v)?;
                let (_, p3) = read8(buf, p2)?;
                let (_, p4) = read32(buf, p3)?;
                Ok((UObjectPropertyMetadata::MapTypes(key, value), p4))
            },
            _ => {
                let (_, p1) = read8(buf, pos)?;
                Ok((UObjectPropertyMetadata::Empty, p1))
            },
        }
    }
}


/// The models of a sequence of values.
pub open spec fn items_model(s: Seq<UObjectPropertyData>) -> Seq<DataModel> {
    Seq::new(s.len(), |i: int| s[i]@)
}

/// The models of a sequence of key-value pairs.
pub open spec fn pairs_model(s: Seq<(UObjectPropertyData, UObjectPropertyData)>) -> Seq<
    (DataModel, DataModel),
> {
    Seq::new(s.len(), |i: int| (s[i].0@, s[i].1@))
}

proof fn lemma_items_err(
    buf: Seq<u8>,
    pos: int,
    t: Seq<char>,
    meta: MetadataModel,
    map: Seq<Seq<char>>,
    expected: usize,
    k: int,
    m: int,
)
    requires
        0 <= k <= m,
        parse_items(buf, pos, t, meta, map, expected, k) is Err,
    ensures
        parse_items(buf, pos, t, meta, map, expected, m) == parse_items(
            buf,
            pos,
            t,
            meta,
            map,
            expected,
            k,
        ),
    decreases m,
{
    if m > k {
        lemma_items_err(buf, pos, t, meta, map, expected, k, m - 1);
    }
}

proof fn lemma_pairs_err(
    buf: Seq<u8>,
    pos: int,
    kt: Seq<char>,
    vt: Seq<char>,
    meta: MetadataModel,
    map: Seq<Seq<char>>,
    expected: usize,
    k: int,
    m: int,
)
    requires
        0 <= k <= m,
        parse_pairs(buf, pos, kt, vt, meta, map, expected, k) is Err,
    ensures
        parse_pairs(buf, pos, kt, vt, meta, map, expected, m) == parse_pairs(
            buf,
            pos,
            kt,
            vt,
            meta,
            map,
            expected,
            k,
        ),
    decreases m,
{
    if m > k {
        lemma_pairs_err(buf, pos, kt, vt, meta, map, expected, k, m - 1);
    }
}

/// Reads the body of a string value whose stored length is `len`.
fn read_string_body(buf: &[u8], pos: usize, len: i32) -> (r: Result<(UObjectPropertyData, usize), UassetError>)
    requires
        pos <= buf@.len(),
    ensures
        res_view(r) == parse_string_body(buf@, pos as int, len),
        r matches Ok((_, p)) ==> pos <= p <= buf@.len(),
{
    if len < 0 {
        if len == i32::MIN {
            return Err(UassetError::InvalidStringLength);
        }
        let n = (-len - 1) as usize;
        if n > (buf.len() - pos) / 2 {
            return Err(UassetError::UnexpectedEnd);
        }
        let units = read_units(buf, pos, n);
        let (t, p) = read16(buf, pos + 2 * n)?;
        if t != 0 {
            return Err(UassetError::MalformedString);
        }
        match decode_units(units.as_slice()) {
            Some(s) => Ok((UObjectPropertyData::StringUtf16(s), p)),
            None => Err(UassetError::InvalidUtf16),
        }
    } else if len > 0 {
        let n = (len - 1) as usize;
        if n > buf.len() - pos {
            return Err(UassetError::UnexpectedEnd);
        }
        let (t, p) = read8(buf, pos + n)?;
        if t != 0 {
            return Err(UassetError::MalformedString);
        }
        let bytes = copy_range(buf, pos, n);
        match decode_bytes(bytes) {
            Some(s) => Ok((UObjectPropertyData::String(s), p)),
            None => Err(UassetError::InvalidUtf8),
        }
    } else {
        Ok((UObjectPropertyData::String(String::new()), pos))
    }
}

/// Reads `expected` raw bytes as a struct without properties.
fn read_raw(buf: &[u8], pos: usize, expected: usize) -> (r: Result<(UObjectPropertyData, usize), UassetError>)
    requires
        pos <= buf@.len(),
    ensures
        res_view(r) == parse_raw(buf@, pos as int, expected),
        r matches Ok((_, p)) ==> pos <= p <= buf@.len(),
{
    if expected <= buf.len() - pos {
        let raw = copy_range(buf, pos, expected);
        let r = UObjectPropertyData::Struct(Vec::new(), raw);
        proof {
            assert(r@->Struct_0 =~= Seq::<PropertyModel>::empty());
        }
        Ok((r, pos + expected))
    } else {
        Err(UassetError::UnexpectedEnd)
    }
}


/// The model of a property reader's result.
pub open spec fn property_res_view(r: Result<(Option<UObjectProperty>, usize), UassetError>) -> Result<
    (Option<PropertyModel>, int),
    UassetError,
> {
    match r {
        Ok((Some(prop), p)) => Ok((Some(prop@), p as int)),
        Ok((None, p)) => Ok((None, p as int)),
        Err(e) => Err(e),
    }
}

/// The model of a property-list reader's result.
pub open spec fn props_res_view(r: Result<(Vec<UObjectProperty>, usize), UassetError>) -> Result<
    (Seq<PropertyModel>, int),
    UassetError,
> {
    match r {
        Ok((v, p)) => Ok((properties_model(v@), p as int)),
        Err(e) => Err(e),
    }
}

/// A property-list result with `first` put in front of its list.
pub open spec fn prefixed(first: Seq<PropertyModel>, r: Result<(Seq<PropertyModel>, int), UassetError>) -> Result<
    (Seq<PropertyModel>, int),
    UassetError,
> {
    match r {
        Ok((rest, p)) => Ok((first + rest, p)),
        Err(e) => Err(e),
    }
}

impl UObjectPropertyData {
    /// Reads a value of type `prop_type` at `pos`. `metadata` is the metadata
    /// of the enclosing property, `expected_size` the data size its tag
    /// announced, which raw structs and unknown types take as their length.
    pub fn from_buffer(
        buf: &[u8],
        pos: usize,
        prop_type: &str,
        metadata: &UObjectPropertyMetadata,
        name_map: &[String],
        expected_size: usize,
    ) -> (r: Result<(Self, usize), UassetError>)
        ensures
            res_view(r) == parse_data(
                buf@,
                pos as int,
                prop_type@,
                metadata@,
                names_of(name_map@),
                expected_size,
            ),
            r matches Ok((_, p)) ==> pos <= p <= buf@.len(),
        decreases buf@.len() - pos, 2int,
    {
        if pos > buf.len() {
            return Err(UassetError::UnexpectedEnd);
        }
        match property_kind(prop_type) {
            PropertyKind::ArrayProperty => {
                let (n, p1) = read32(buf, pos)?;
                let item = match metadata {
                    UObjectPropertyMetadata::Array(v) => v,
                    _ => {
                        return Err(UassetError::MetadataMismatch);
                    },
                };
                if str_eq(item.as_str(), "StructProperty") {
                    let (schema, p2) = read_array_schema(buf, p1, name_map)?;
                    let (items, p3) = read_items(buf, p2, n, item.as_str(), metadata, name_map, expected_size)?;
                    let r = UObjectPropertyData::Array(items, Some(schema));
                    proof {
                        assert(r@->Array_0 =~= items_model(items@));
                    }
                    Ok((r, p3))
                } else {
                    let (items, p3) = read_items(buf, p1, n, item.as_str(), metadata, name_map, expected_size)?;
                    let r = UObjectPropertyData::Array(items, None);
                    proof {
                        assert(r@->Array_0 =~= items_model(items@));
                    }
                    Ok((r, p3))
                }
            },
            PropertyKind::BoolProperty => Ok((UObjectPropertyData::Bool, pos)),
            PropertyKind::ByteProperty => {
                let (v, p1) = read8(buf, pos)?;
                Ok((UObjectPropertyData::Byte(v), p1))
            },
            PropertyKind::EnumProperty => {
                let (i, p1) = read64(buf, pos)?;
                let s = name_at_index(name_map, i)?;
                Ok((UObjectPropertyData::Enum(s), p1))
            },
            PropertyKind::StructProperty => {
                let (next, _) = read64(buf, pos)?;
                if next == 0 || next >= name_map.len() as u64 {
                    read_raw(buf, pos, expected_size)
                } else {
                    let (props, p1) = props_from_buffer(buf, pos, name_map)?;
                    let r = UObjectPropertyData::Struct(props, Vec::new());
                    proof {
                        assert(r@->Struct_0 =~= properties_model(props@));
                        assert(r@->Struct_1 =~= Seq::<u8>::empty());
                    }
                    Ok((r, p1))
                }
            },
            PropertyKind::FloatProperty => {
                let (b, p1) = read32(buf, pos)?;
                Ok((UObjectPropertyData::Float(b), p1))
            },
            PropertyKind::StrProperty => {
                let (len, p1) = read32(buf, pos)?;
                read_string_body(buf, p1, len as i32)
            },
            PropertyKind::MapProperty => {
                let (kt, vt) = match metadata {
                    UObjectPropertyMetadata::MapTypes(k, v) => (k, v),
                    _ => {
                        return Err(UassetError::MetadataMismatch);
                    },
                };
                let (n, p1) = read32(buf, pos)?;
                let (pairs, p2) = read_pairs(buf, p1, n, kt.as_str(), vt.as_str(), metadata, name_map, expected_size)?;
                let r = UObjectPropertyData::MapEntries(pairs);
                proof {
                    assert(r@->MapEntries_0 =~= pairs_model(pairs@));
                }
                Ok((r, p2))
            },
            PropertyKind::NameProperty => {
                let (i, p1) = read64(buf, pos)?;
                let s = name_at_index(name_map, i)?;
                Ok((UObjectPropertyData::Name(s), p1))
            },
            PropertyKind::UInt16Property => {
                let (v, p1) = read16(buf, pos)?;
                Ok((UObjectPropertyData::UInt16(v), p1))
            },
            PropertyKind::UInt32Property => {
                let (v, p1) = read32(buf, pos)?;
                Ok((UObjectPropertyData::UInt32(v), p1))
            },
            PropertyKind::Int8Property => {
                let (v, p1) = read8(buf, pos)?;
                Ok((UObjectPropertyData::Int8(v as i8), p1))
            },
            PropertyKind::Int16Property => {
                let (v, p1) = read16(buf, pos)?;
                Ok((UObjectPropertyData::Int16(v as i16), p1))
            },
            PropertyKind::IntProperty => {
                let (v, p1) = read32(buf, pos)?;
                Ok((UObjectPropertyData::Int32(v as i32), p1))
            },
            PropertyKind::Other => read_raw(buf, pos, expected_size),
        }
    }
}

/// Reads the schema that precedes the items of an array of structs.
#[verifier::loop_isolation(false)]
fn read_array_schema(buf: &[u8], pos: usize, name_map: &[String]) -> (r: Result<
    ((UObjectPropertyHeader, String), usize),
    UassetError,
>)
    ensures
        match r {
            Ok(((h, n), p)) => parse_array_schema(buf@, pos as int, names_of(name_map@)) == Ok::<
                ((HeaderModel, Seq<char>), int),
                UassetError,
            >(((h@, n@), p as int)) && pos < p <= buf@.len(),
            Err(e) => parse_array_schema(buf@, pos as int, names_of(name_map@)) == Err::<
                ((HeaderModel, Seq<char>), int),
                UassetError,
            >(e),
        },
{
    let (h, p1) = UObjectPropertyHeader::from_buffer(buf, pos, name_map)?;
    let h = match h {
        Some((h, _)) => h,
        None => {
            return Err(UassetError::MissingArrayItemSchema);
        },
    };
    let (ai, p2) = read64(buf, p1)?;
    let array_name = name_at_index(name_map, ai)?;
    if buf.len() - p2 < 17 {
        return Err(UassetError::UnexpectedEnd);
    }
    let blen = buf.len();
    let mut i: usize = 0;
    while i < 17
        invariant
            0 <= i <= 17,
            p2 + 17 <= buf@.len(),
            blen == buf@.len(),
            forall|j: int| 0 <= j < i ==> #[trigger] buf@.subrange(p2 as int, p2 + 17)[j] == 0u8,
        decreases 17 - i,
    {
        if buf[p2 + i] != 0 {
            proof {
                assert(buf@.subrange(p2 as int, p2 + 17)[i as int] != zeros17()[i as int]);
            }
            return Err(UassetError::NonZeroArrayPadding);
        }
        i = i + 1;
    }
    assert(buf@.subrange(p2 as int, p2 + 17) =~= zeros17());
    Ok(((h, array_name), p2 + 17))
}

/// Reads `n` values of type `item` from `start`.
fn read_items(
    buf: &[u8],
    start: usize,
    n: u32,
    item: &str,
    metadata: &UObjectPropertyMetadata,
    name_map: &[String],
    expected_size: usize,
) -> (r: Result<(Vec<UObjectPropertyData>, usize), UassetError>)
    requires
        start <= buf@.len(),
    ensures
        match r {
            Ok((v, p)) => parse_items(buf@, start as int, item@, metadata@, names_of(name_map@), expected_size, n as int)
                == Ok::<(Seq<DataModel>, int), UassetError>((items_model(v@), p as int))
                && start <= p <= buf@.len(),
            Err(e) => parse_items(buf@, start as int, item@, metadata@, names_of(name_map@), expected_size, n as int)
                == Err::<(Seq<DataModel>, int), UassetError>(e),
        },
    decreases buf@.len() - start, 3int,
{
    let ghost map = names_of(name_map@);
    let mut items: Vec<UObjectPropertyData> = Vec::new();
    assert(items_model(items@) =~= Seq::<DataModel>::empty());
    let mut p = start;
    let mut k: u32 = 0;
    while k < n
        invariant
            start <= p <= buf@.len(),
            k <= n,
            map == names_of(name_map@),
            parse_items(buf@, start as int, item@, metadata@, map, expected_size, k as int)
                == Ok::<(Seq<DataModel>, int), UassetError>((items_model(items@), p as int)),
        decreases n - k,
    {
        let (d, p2) = match UObjectPropertyData::from_buffer(buf, p, item, metadata, name_map, expected_size) {
            Ok(x) => x,
            Err(e) => {
                proof {
                    lemma_items_err(buf@, start as int, item@, metadata@, map, expected_size, k + 1, n as int);
                }
                return Err(e);
            },
        };
        proof {
            assert(items_model(items@.push(d)) =~= items_model(items@).push(d@));
        }
        items.push(d);
        p = p2;
        k = k + 1;
    }
    Ok((items, p))
}

/// Reads `n` key-value pairs from `start`.
fn read_pairs(
    buf: &[u8],
    start: usize,
    n: u32,
    kt: &str,
    vt: &str,
    metadata: &UObjectPropertyMetadata,
    name_map: &[String],
    expected_size: usize,
) -> (r: Result<(Vec<(UObjectPropertyData, UObjectPropertyData)>, usize), UassetError>)
    requires
        start <= buf@.len(),
    ensures
        match r {
            Ok((v, p)) => parse_pairs(buf@, start as int, kt@, vt@, metadata@, names_of(name_map@), expected_size, n as int)
                == Ok::<(Seq<(DataModel, DataModel)>, int), UassetError>((pairs_model(v@), p as int))
                && start <= p <= buf@.len(),
            Err(e) => parse_pairs(buf@, start as int, kt@, vt@, metadata@, names_of(name_map@), expected_size, n as int)
                == Err::<(Seq<(DataModel, DataModel)>, int), UassetError>(e),
        },
    decreases buf@.len() - start, 3int,
{
    let ghost map = names_of(name_map@);
    let mut pairs: Vec<(UObjectPropertyData, UObjectPropertyData)> = Vec::new();
    assert(pairs_model(pairs@) =~= Seq::<(DataModel, DataModel)>::empty());
    let mut p = start;
    let mut k: u32 = 0;
    while k < n
        invariant
            start <= p <= buf@.len(),
            k <= n,
            map == names_of(name_map@),
            parse_pairs(buf@, start as int, kt@, vt@, metadata@, map, expected_size, k as int)
                == Ok::<(Seq<(DataModel, DataModel)>, int), UassetError>((pairs_model(pairs@), p as int)),
        decreases n - k,
    {
        let (key, p2) = match UObjectPropertyData::from_buffer(buf, p, kt, metadata, name_map, expected_size) {
            Ok(x) => x,
            Err(e) => {
                proof {
                    lemma_pairs_err(buf@, start as int, kt@, vt@, metadata@, map, expected_size, k + 1, n as int);
                }
                return Err(e);
            },
        };
        let (value, p3) = match UObjectPropertyData::from_buffer(buf, p2, vt, metadata, name_map, expected_size) {
            Ok(x) => x,
            Err(e) => {
                proof {
                    lemma_pairs_err(buf@, start as int, kt@, vt@, metadata@, map, expected_size, k + 1, n as int);
                }
                return Err(e);
            },
        };
        proof {
            assert(pairs_model(pairs@.push((key, value))) =~= pairs_model(pairs@).push((key@, value@)));
        }
        pairs.push((key, value));
        p = p3;
        k = k + 1;
    }
    Ok((pairs, p))
}

impl UObjectProperty {
    /// Reads a property at `pos`: `None` at the end-of-list marker.
    pub fn from_buffer(buf: &[u8], pos: usize, name_map: &[String]) -> (r: Result<
        (Option<Self>, usize),
        UassetError,
    >)
        ensures
            property_res_view(r) == parse_property(buf@, pos as int, names_of(name_map@)),
            r matches Ok((_, p)) ==> pos < p <= buf@.len(),
        decreases buf@.len() - pos, 0int,
    {
        let (h, p1) = UObjectPropertyHeader::from_buffer(buf, pos, name_map)?;
        match h {
            None => Ok((None, p1)),
            Some((header, size)) => {
                let (metadata, p2) = UObjectPropertyMetadata::from_buffer(
                    buf,
                    p1,
                    header.prop_type.as_str(),
                    name_map,
                )?;
                let (data, p3) = UObjectPropertyData::from_buffer(
                    buf,
                    p2,
                    header.prop_type.as_str(),
                    &metadata,
                    name_map,
                    size,
                )?;
                Ok((Some(UObjectProperty { header, metadata, data }), p3))
            },
        }
    }
}

/// Reads properties at `pos` up to and including the end-of-list marker.
fn props_from_buffer(buf: &[u8], pos: usize, name_map: &[String]) -> (r: Result<
    (Vec<UObjectProperty>, usize),
    UassetError,
>)
    requires
        pos <= buf@.len(),
    ensures
        props_res_view(r) == parse_props(buf@, pos as int, names_of(name_map@)),
        r matches Ok((_, p)) ==> pos < p <= buf@.len(),
    decreases buf@.len() - pos, 1int,
{
    let ghost map = names_of(name_map@);
    let mut props: Vec<UObjectProperty> = Vec::new();
    let mut p = pos;
    loop
        invariant
            pos <= p <= buf@.len(),
            p == pos ==> props@.len() == 0,
            map == names_of(name_map@),
            parse_props(buf@, pos as int, map) == prefixed(properties_model(props@), parse_props(buf@, p as int, map)),
        decreases buf@.len() - p,
    {
        let ghost before = properties_model(props@);
        match UObjectProperty::from_buffer(buf, p, name_map) {
            Err(e) => {
                return Err(e);
            },
            Ok((None, p1)) => {
                proof {
                    assert(before + Seq::<PropertyModel>::empty() =~= before);
                }
                return Ok((props, p1));
            },
            Ok((Some(prop), p1)) => {
                proof {
                    let rest = parse_props(buf@, p1 as int, map);
                    assert(parse_props(buf@, p as int, map) == prefixed(seq![prop@], rest));
                    match rest {
                        Ok((r, q)) => {
                            assert(before + (seq![prop@] + r) =~= before.push(prop@) + r);
                        },
                        Err(_) => {},
                    }
                    assert(properties_model(props@.push(prop)) =~= before.push(prop@));
                }
                props.push(prop);
                p = p1;
            },
        }
    }
}


impl UObjectSummaryHeader {
    /// Reads the 64-byte summary header at `pos`; the padding field is read
    /// past and set to zero.
    pub fn from_buffer(buf: &[u8], pos: usize) -> (r: Result<(Self, usize), UassetError>)
        ensures
            res_view(r) == parse_summary_header(buf@, pos as int),
    {
        if buf.len() < 64 || pos > buf.len() - 64 {
            return Err(UassetError::UnexpectedEnd);
        }
        let h = UObjectSummaryHeader {
            name: read_u64_at(buf, pos),
            source_name: read_u64_at(buf, pos + 8),
            package_flags: read_u32_at(buf, pos + 16),
            cooked_header_size: read_u32_at(buf, pos + 20),
            name_map_names_offset: read_u32_at(buf, pos + 24) as i32,
            name_map_names_size: read_u32_at(buf, pos + 28) as i32,
            name_map_hashes_offset: read_u32_at(buf, pos + 32) as i32,
            name_map_hashes_size: read_u32_at(buf, pos + 36) as i32,
            import_map_offset: read_u32_at(buf, pos + 40) as i32,
            export_map_offset: read_u32_at(buf, pos + 44) as i32,
            export_bundles_offset: read_u32_at(buf, pos + 48) as i32,
            graph_data_offset: read_u32_at(buf, pos + 52) as i32,
            graph_data_size: read_u32_at(buf, pos + 56) as i32,
            pad: 0,
        };
        Ok((h, pos + 64))
    }
}

/// The model of a name-entry reader's result.
pub open spec fn entry_res_view(r: Result<((String, StringType), usize), UassetError>) -> Result<
    ((Seq<char>, StringType), int),
    UassetError,
> {
    match r {
        Ok(((s, t), p)) => Ok(((s@, t), p as int)),
        Err(e) => Err(e),
    }
}

/// Reads one name-map entry at `pos`.
fn read_name_entry(buf: &[u8], pos: usize) -> (r: Result<((String, StringType), usize), UassetError>)
    ensures
        entry_res_view(r) == parse_name_entry(buf@, pos as int),
        r matches Ok((_, p)) ==> pos < p <= buf@.len(),
{
    let (m1, p1) = read8(buf, pos)?;
    let (m2, p2) = read8(buf, p1)?;
    let len = ((m1 & 0x7f) as usize) * 256 + m2 as usize;
    assert(len == (m1 & 0x7f) as int * 256 + m2 as int);
    if m1 & 0x80 > 0 {
        let p3 = if p2 % 2 > 0 {
            let (_, q) = read8(buf, p2)?;
            q
        } else {
            p2
        };
        if len > (buf.len() - p3) / 2 {
            return Err(UassetError::UnexpectedEnd);
        }
        let units = read_units(buf, p3, len);
        match decode_units(units.as_slice()) {
            Some(s) => Ok(((s, StringType::Utf16), p3 + 2 * len)),
            None => Err(UassetError::InvalidUtf16),
        }
    } else {
        if len > buf.len() - p2 {
            return Err(UassetError::UnexpectedEnd);
        }
        let bytes = copy_range(buf, p2, len);
        match decode_bytes(bytes) {
            Some(s) => Ok(((s, StringType::Utf8), p2 + len)),
            None => Err(UassetError::InvalidUtf8),
        }
    }
}

proof fn lemma_names_err(buf: Seq<u8>, pos: int, k: int, m: int)
    requires
        0 <= k <= m,
        parse_names(buf, pos, k) is Err,
    ensures
        parse_names(buf, pos, m) == parse_names(buf, pos, k),
    decreases m,
{
    if m > k {
        lemma_names_err(buf, pos, k, m - 1);
    }
}

impl UObjectSummary {
    /// Reads a summary at `pos`: header, as many names as the name map's
    /// hash table has slots less one, and the bytes up to the end of the
    /// graph data.
    #[verifier::loop_isolation(false)]
    pub fn from_buffer(buf: &[u8], pos: usize) -> (r: Result<(Self, usize), UassetError>)
        ensures
            res_view(r) == parse_summary(buf@, pos as int),
            r matches Ok((_, p)) ==> p <= buf@.len(),
    {
        let (header, p1) = UObjectSummaryHeader::from_buffer(buf, pos)?;
        if header.name_map_hashes_size < 8 {
            return Err(UassetError::InvalidNameCount);
        }
        let count = ((header.name_map_hashes_size as u32) / 8 - 1) as usize;
        assert(count == header.name_map_hashes_size / 8 - 1);
        let mut name_map: Vec<String> = Vec::new();
        let mut name_map_type: Vec<StringType> = Vec::new();
        let mut p = p1;
        let mut k: usize = 0;
        assert(names_of(name_map@) =~= Seq::<Seq<char>>::empty());
        while k < count
            invariant
                p1 <= p <= buf@.len(),
                k <= count,
                parse_names(buf@, p1 as int, k as int) == Ok::<
                    ((Seq<Seq<char>>, Seq<StringType>), int),
                    UassetError,
                >(((names_of(name_map@), name_map_type@), p as int)),
            decreases count - k,
        {
            let ((s, t), q) = match read_name_entry(buf, p) {
                Ok(x) => x,
                Err(e) => {
                    proof {
                        lemma_names_err(buf@, p1 as int, k + 1, count as int);
                    }
                    return Err(e);
                },
            };
            proof {
                assert(names_of(name_map@.push(s)) =~= names_of(name_map@).push(s@));
            }
            name_map.push(s);
            name_map_type.push(t);
            p = q;
            k = k + 1;
        }
        let end = header.graph_data_offset as i64 + header.graph_data_size as i64;
        if end > i32::MAX as i64 || end < 0 || (end as usize) < p {
            return Err(UassetError::InvalidGraphDataEnd);
        }
        let end = end as usize;
        if end > buf.len() {
            return Err(UassetError::UnexpectedEnd);
        }
        let remaining_bytes = copy_range(buf, p, end - p);
        Ok((UObjectSummary { header, name_map, name_map_type, remaining_bytes }, end))
    }
}

impl IoUObject {
    /// Reads a package object from the start of `buf`: the summary, then
    /// properties up to the end-of-list marker.
    pub fn from_buffer(buf: &[u8]) -> (r: Result<Self, UassetError>)
        ensures
            match r {
                Ok(o) => parse_object(buf@) == Ok::<ObjectModel, UassetError>(o@),
                Err(e) => parse_object(buf@) == Err::<ObjectModel, UassetError>(e),
            },
    {
        let (summary, p) = UObjectSummary::from_buffer(buf, 0)?;
        let (properties, _) = props_from_buffer(buf, p, summary.name_map.as_slice())?;
        Ok(IoUObject { summary, properties })
    }
}

} // verus!
