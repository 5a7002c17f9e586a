//! What the library promises across its functions: an object written with
//! `to_bytes` reads back, with `from_buffer`, as the same object.

use crate::format::{
    data_bytes, data_size, header_bytes, items_bytes, metadata_bytes, name_at, name_entry_bytes,
    names_bytes, object_bytes, pairs_bytes, parse_array_schema, parse_data, parse_header,
    parse_items, parse_metadata, parse_name_entry, parse_names, parse_object, parse_pairs,
    parse_property, parse_props, parse_raw, parse_string_body, parse_summary,
    parse_summary_header, property_bytes, props_bytes, rd16, rd32, rd64, rd8, string_bytes,
    string_utf16_bytes, summary_bytes, summary_header_bytes, units_at, units_bytes, zeros17,
    UassetError,
};
use crate::le_bytes::{get16, get32, get64, le16, le32, le64, lemma_le};
use crate::names::{first_index, in_map, index_of, lemma_first_index};
use crate::text_codec::{decode_utf16, encode_utf16, lemma_decode_encode_utf16, utf8_of};
use crate::types::{
    kind_of, DataModel, HeaderModel, MetadataModel, ObjectModel, PropertyKind, PropertyModel,
    StringType, SummaryModel, UObjectSummaryHeader,
};
use vstd::bytes::{lemma_auto_spec_u32_to_from_le_bytes, lemma_auto_spec_u64_to_from_le_bytes};
use vstd::prelude::*;
use vstd::utf8::{decode_utf8, encode_utf8_decode_utf8, encode_utf8_valid_utf8, valid_utf8};

verus! {

/// `bytes` stands in `buf` from `pos` on.
pub open spec fn at(buf: Seq<u8>, pos: int, bytes: Seq<u8>) -> bool {
    &&& 0 <= pos
    &&& pos + bytes.len() <= buf.len()
    &&& buf.subrange(pos, pos + bytes.len()) == bytes
}

proof fn lemma_at_split(buf: Seq<u8>, pos: int, a: Seq<u8>, b: Seq<u8>)
    requires
        at(buf, pos, a + b),
    ensures
        at(buf, pos, a),
        at(buf, pos + a.len(), b),
{
    let whole = buf.subrange(pos, pos + (a + b).len());
    assert(whole == a + b);
    assert(buf.subrange(pos, pos + a.len()) =~= whole.subrange(0, a.len() as int));
    assert(whole.subrange(0, a.len() as int) =~= a);
    assert(buf.subrange(pos + a.len(), pos + a.len() + b.len()) =~= whole.subrange(
        a.len() as int,
        (a + b).len() as int,
    ));
    assert(whole.subrange(a.len() as int, (a + b).len() as int) =~= b);
}

proof fn lemma_rd(buf: Seq<u8>, pos: int)
    ensures
        forall|v: u64| #[trigger] at(buf, pos, le64(v)) ==> rd64(buf, pos) == Ok::<(u64, int), UassetError>((v, pos + 8)),
        forall|v: u32| #[trigger] at(buf, pos, le32(v)) ==> rd32(buf, pos) == Ok::<(u32, int), UassetError>((v, pos + 4)),
        forall|v: u16| #[trigger] at(buf, pos, le16(v)) ==> rd16(buf, pos) == Ok::<(u16, int), UassetError>((v, pos + 2)),
        forall|v: u8| #[trigger] at(buf, pos, seq![v]) ==> rd8(buf, pos) == Ok::<(u8, int), UassetError>((v, pos + 1)),
{
    lemma_le();
    assert forall|v: u8| #[trigger] at(buf, pos, seq![v]) implies rd8(buf, pos) == Ok::<(u8, int), UassetError>((v, pos + 1)) by {
        assert(buf.subrange(pos, pos + 1)[0] == buf[pos]);
    }
}

proof fn lemma_name(map: Seq<Seq<char>>, s: Seq<char>)
    requires
        in_map(map, s),
        map.len() <= usize::MAX,
    ensures
        name_at(map, index_of(map, s)) == Ok::<Seq<char>, UassetError>(s),
        index_of(map, s) < map.len(),
{
    lemma_first_index(map, s);
}


/// A tag that reads back as itself: not the `None` marker, its names in the
/// map, its array index within 32 bits.
pub open spec fn header_roundtrips(h: HeaderModel, map: Seq<Seq<char>>) -> bool {
    &&& h.name != "None"@
    &&& in_map(map, h.name)
    &&& in_map(map, h.prop_type)
    &&& h.arr_index <= u32::MAX
}

/// Metadata of the form that its property's type reads.
pub open spec fn metadata_roundtrips(m: MetadataModel, t: Seq<char>, map: Seq<Seq<char>>) -> bool {
    match kind_of(t) {
        PropertyKind::ArrayProperty => m matches MetadataModel::Array(i) && in_map(map, i),
        PropertyKind::BoolProperty => m is Bool,
        PropertyKind::ByteProperty => m is Byte,
        PropertyKind::EnumProperty => m matches MetadataModel::Enum(s) && in_map(map, s),
        PropertyKind::StructProperty => m matches MetadataModel::Struct(d) && d.len() == 25,
        PropertyKind::MapProperty => m matches MetadataModel::MapTypes(k, v) && in_map(map, k)
            && in_map(map, v),
        _ => m is Empty,
    }
}

/// A value of the form that type `t` reads under metadata `meta`. `top`
/// holds for a property's own value, the only place where raw bytes can
/// stand, since only there the announced size is theirs.
pub open spec fn data_roundtrips(
    d: DataModel,
    t: Seq<char>,
    meta: MetadataModel,
    map: Seq<Seq<char>>,
    top: bool,
) -> bool
    decreases d,
{
    match kind_of(t) {
        PropertyKind::ArrayProperty => match d {
            DataModel::Array(items, schema) => match meta {
                MetadataModel::Array(item) => {
                    &&& items.len() <= u32::MAX
                    &&& if item == "StructProperty"@ {
                        schema matches Some((h, n)) && header_roundtrips(h, map) && in_map(map, n)
                    } else {
                        schema is None
                    }
                    &&& forall|i: int|
                        0 <= i < items.len() ==> data_roundtrips(
                            #[trigger] items[i],
                            item,
                            meta,
                            map,
                            false,
                        )
                },
                _ => false,
            },
            _ => false,
        },
        PropertyKind::BoolProperty => d is Bool,
        PropertyKind::ByteProperty => d is Byte,
        PropertyKind::EnumProperty => d matches DataModel::Enum(s) && in_map(map, s),
        PropertyKind::StructProperty => match d {
            DataModel::Struct(props, raw) => if props.len() > 0 {
                &&& raw.len() == 0
                &&& first_index(map, props[0].header.name) != Some(0int)
                &&& forall|i: int| 0 <= i < props.len() ==> property_roundtrips(#[trigger] props[i], map)
            } else {
                &&& top
                &&& 8 <= raw.len() <= u32::MAX
                &&& (get64(raw, 0) == 0 || get64(raw, 0) >= map.len())
            },
            _ => false,
        },
        PropertyKind::FloatProperty => d is Float,
        PropertyKind::StrProperty => match d {
            DataModel::String(s) => utf8_of(s).len() + 1 <= i32::MAX,
            DataModel::StringUtf16(s) => encode_utf16(s).len() + 1 <= i32::MAX,
            _ => false,
        },
        PropertyKind::MapProperty => match d {
            DataModel::MapEntries(pairs) => match meta {
                MetadataModel::MapTypes(k, v) => {
                    &&& pairs.len() <= u32::MAX
                    &&& forall|i: int|
                        0 <= i < pairs.len() ==> data_roundtrips((#[trigger] pairs[i]).0, k, meta, map, false)
                            && data_roundtrips(pairs[i].1, v, meta, map, false)
                },
                _ => false,
            },
            _ => false,
        },
        PropertyKind::NameProperty => d matches DataModel::Name(s) && in_map(map, s),
        PropertyKind::UInt16Property => d is UInt16,
        PropertyKind::UInt32Property => d is UInt32,
        PropertyKind::Int8Property => d is Int8,
        PropertyKind::Int16Property => d is Int16,
        PropertyKind::IntProperty => d is Int32,
        PropertyKind::Other => d matches DataModel::Struct(props, raw) && top && props.len() == 0
            && raw.len() <= u32::MAX,
    }
}

/// A property that reads back as itself.
pub open spec fn property_roundtrips(p: PropertyModel, map: Seq<Seq<char>>) -> bool
    decreases p,
{
    &&& header_roundtrips(p.header, map)
    &&& metadata_roundtrips(p.metadata, p.header.prop_type, map)
    &&& data_roundtrips(p.data, p.header.prop_type, p.metadata, map, true)
}

proof fn lemma_header_rt(h: HeaderModel, map: Seq<Seq<char>>, ds: usize, buf: Seq<u8>, pos: int)
    requires
        header_roundtrips(h, map),
        map.len() <= usize::MAX,
        at(buf, pos, header_bytes(h, map, ds)),
    ensures
        parse_header(buf, pos, map) == Ok::<(Option<(HeaderModel, usize)>, int), UassetError>(
            (Some((h, (ds as u32) as usize)), pos + 24),
        ),
        header_bytes(h, map, ds).len() == 24,
        rd64(buf, pos) == Ok::<(u64, int), UassetError>((index_of(map, h.name), pos + 8)),
{
    lemma_le();
    let a = le64(index_of(map, h.name));
    let b = le64(index_of(map, h.prop_type));
    let c = le32(ds as u32);
    let d = le32(h.arr_index as u32);
    lemma_at_split(buf, pos, a + b + c, d);
    lemma_at_split(buf, pos, a + b, c);
    lemma_at_split(buf, pos, a, b);
    lemma_rd(buf, pos);
    lemma_rd(buf, pos + 8);
    lemma_rd(buf, pos + 16);
    lemma_rd(buf, pos + 20);
    lemma_name(map, h.name);
    lemma_name(map, h.prop_type);
}

proof fn lemma_metadata_rt(m: MetadataModel, t: Seq<char>, map: Seq<Seq<char>>, buf: Seq<u8>, pos: int)
    requires
        metadata_roundtrips(m, t, map),
        map.len() <= usize::MAX,
        at(buf, pos, metadata_bytes(m, map)),
    ensures
        parse_metadata(buf, pos, t, map) == Ok::<(MetadataModel, int), UassetError>(
            (m, pos + metadata_bytes(m, map).len()),
        ),
{
    lemma_le();
    lemma_rd(buf, pos);
    match m {
        MetadataModel::Array(i) => {
            lemma_at_split(buf, pos, le64(index_of(map, i)), seq![0u8]);
            lemma_rd(buf, pos + 8);
            lemma_name(map, i);
        },
        MetadataModel::Bool(v) => {
            let b = if v { 1u8 } else { 0u8 };
            assert(seq![b, 0u8] =~= seq![b] + seq![0u8]);
            lemma_at_split(buf, pos, seq![b], seq![0u8]);
            lemma_rd(buf, pos + 1);
        },
        MetadataModel::Byte(e, v) => {
            lemma_at_split(buf, pos, le64(e), seq![v]);
            lemma_rd(buf, pos + 8);
        },
        MetadataModel::Enum(i) => {
            lemma_at_split(buf, pos, le64(index_of(map, i)), seq![0u8]);
            lemma_rd(buf, pos + 8);
            lemma_name(map, i);
        },
        MetadataModel::MapTypes(k, v) => {
            let a = le64(index_of(map, k));
            let b = le64(index_of(map, v));
            lemma_at_split(buf, pos, a + b + seq![0u8], le32(0));
            lemma_at_split(buf, pos, a + b, seq![0u8]);
            lemma_at_split(buf, pos, a, b);
            lemma_rd(buf, pos + 8);
            lemma_rd(buf, pos + 16);
            lemma_rd(buf, pos + 17);
            lemma_name(map, k);
            lemma_name(map, v);
        },
        MetadataModel::Struct(d) => {},
        MetadataModel::Empty => {},
    }
}

proof fn lemma_units_rt(u: Seq<u16>, buf: Seq<u8>, pos: int)
    requires
        at(buf, pos, units_bytes(u)),
    ensures
        units_bytes(u).len() == 2 * u.len(),
        units_at(buf, pos, u.len() as int) == u,
    decreases u.len(),
{
    lemma_le();
    if u.len() > 0 {
        let init = u.subrange(0, u.len() - 1);
        lemma_at_split(buf, pos, units_bytes(init), le16(u[u.len() - 1]));
        lemma_units_rt(init, buf, pos);
        let q = pos + 2 * init.len();
        lemma_rd(buf, q);
        assert(at(buf, q, le16(u[u.len() - 1])));
        assert(get16(buf, q) == u[u.len() - 1]);
        assert forall|i: int| 0 <= i < u.len() implies units_at(buf, pos, u.len() as int)[i] == u[i] by {
            if i < u.len() - 1 {
                assert(units_at(buf, pos, init.len() as int)[i] == init[i]);
            }
        }
        assert(units_at(buf, pos, u.len() as int) =~= u);
    } else {
        assert(units_at(buf, pos, 0) =~= u);
    }
}

proof fn lemma_cast_pos(x: u32)
    requires
        x <= 0x7fff_ffff,
    ensures
        x as i32 == x,
{
    assert(x <= 0x7fff_ffff ==> x as i32 == x) by (bit_vector);
}

proof fn lemma_cast_neg(n: i32)
    requires
        1 <= n,
    ensures
        ((-(n as int)) as u32) as i32 == -(n as int),
{
    assert(1 <= n ==> ((-n) as u32) as i32 == -n) by (bit_vector);
}

proof fn lemma_string_rt(d: DataModel, buf: Seq<u8>, pos: int)
    requires
        match d {
            DataModel::String(s) => utf8_of(s).len() + 1 <= i32::MAX && at(buf, pos, string_bytes(s)),
            DataModel::StringUtf16(s) => encode_utf16(s).len() + 1 <= i32::MAX && at(
                buf,
                pos,
                string_utf16_bytes(s),
            ),
            _ => false,
        },
    ensures
        ({
            let bytes = match d {
                DataModel::String(s) => string_bytes(s),
                DataModel::StringUtf16(s) => string_utf16_bytes(s),
                _ => seq![],
            };
            &&& rd32(buf, pos) is Ok
            &&& parse_string_body(buf, pos + 4, rd32(buf, pos)->Ok_0.0 as i32) == Ok::<
                (DataModel, int),
                UassetError,
            >((d, pos + bytes.len()))
        }),
{
    lemma_le();
    lemma_rd(buf, pos);
    match d {
        DataModel::String(s) => {
            if s.len() == 0 {
                lemma_cast_pos(0);
                assert(s =~= seq![]);
            } else {
                let b = utf8_of(s);
                let l = (b.len() + 1) as u32;
                lemma_at_split(buf, pos, le32(l) + b, seq![0u8]);
                lemma_at_split(buf, pos, le32(l), b);
                lemma_cast_pos(l);
                lemma_rd(buf, pos + 4 + b.len());
                encode_utf8_valid_utf8(s);
                encode_utf8_decode_utf8(s);
            }
        },
        DataModel::StringUtf16(s) => {
            let u = encode_utf16(s);
            let n = (u.len() + 1) as i32;
            let w = (-(n as int)) as u32;
            lemma_at_split(buf, pos, le32(w) + units_bytes(u), le16(0));
            lemma_at_split(buf, pos, le32(w), units_bytes(u));
            lemma_units_rt(u, buf, pos + 4);
            lemma_cast_neg(n);
            lemma_rd(buf, pos + 4 + units_bytes(u).len());
            lemma_decode_encode_utf16(s);
        },
        _ => {},
    }
}


proof fn lemma_int_casts(a: i8, b: i16, c: i32)
    ensures
        (a as u8) as i8 == a,
        (b as u16) as i16 == b,
        (c as u32) as i32 == c,
{
    assert((a as u8) as i8 == a) by (bit_vector);
    assert((b as u16) as i16 == b) by (bit_vector);
    assert((c as u32) as i32 == c) by (bit_vector);
}

/// The conditions on the name map under which a written value reads back.
pub open spec fn map_ok(map: Seq<Seq<char>>) -> bool {
    &&& map.len() <= usize::MAX
    &&& in_map(map, "None"@)
}

proof fn lemma_data_rt(
    d: DataModel,
    t: Seq<char>,
    meta: MetadataModel,
    map: Seq<Seq<char>>,
    top: bool,
    buf: Seq<u8>,
    pos: int,
    expected: usize,
)
    requires
        data_roundtrips(d, t, meta, map, top),
        map_ok(map),
        at(buf, pos, data_bytes(d, map)),
        top ==> (d matches DataModel::Struct(ps, raw) ==> (ps.len() == 0 ==> expected == raw.len())),
    ensures
        parse_data(buf, pos, t, meta, map, expected) == Ok::<(DataModel, int), UassetError>(
            (d, pos + data_bytes(d, map).len()),
        ),
    decreases d,
{
    lemma_le();
    lemma_rd(buf, pos);
    let bytes = data_bytes(d, map);
    match d {
        DataModel::Array(items, schema) => {
            let item = meta->Array_0;
            let body = items_bytes(items, map);
            let n = items.len() as u32;
            let sp = match schema {
                Some((h, an)) => header_bytes(h, map, body.len() as usize) + le64(index_of(map, an))
                    + zeros17(),
                None => seq![],
            };
            assert(bytes == le32(n) + sp + body);
            lemma_at_split(buf, pos, le32(n) + sp, body);
            lemma_at_split(buf, pos, le32(n), sp);
            assert(n as int == items.len());
            lemma_items_rt(items, item, meta, map, buf, pos + 4 + sp.len(), expected);
            if item == "StructProperty"@ {
                let h = schema->Some_0.0;
                let an = schema->Some_0.1;
                let hb = header_bytes(h, map, body.len() as usize);
                lemma_at_split(buf, pos + 4, hb + le64(index_of(map, an)), zeros17());
                lemma_at_split(buf, pos + 4, hb, le64(index_of(map, an)));
                lemma_header_rt(h, map, body.len() as usize, buf, pos + 4);
                lemma_rd(buf, pos + 28);
                lemma_name(map, an);
                assert(parse_array_schema(buf, pos + 4, map) == Ok::<((HeaderModel, Seq<char>), int), UassetError>(
                    ((h, an), pos + 53),
                ));
            }
        },
        DataModel::Bool => {},
        DataModel::Byte(v) => {},
        DataModel::Enum(s) => {
            lemma_name(map, s);
        },
        DataModel::Struct(props, raw) => {
            if kind_of(t) == PropertyKind::StructProperty && props.len() > 0 {
                assert(property_roundtrips(props[0], map));
                lemma_props_rt(props, map, buf, pos);
                lemma_name(map, props[0].header.name);
                lemma_first_index(map, props[0].header.name);
                assert(raw =~= seq![]);
            } else {
                let w = buf.subrange(pos, pos + raw.len());
                assert(w == raw);
                if kind_of(t) == PropertyKind::StructProperty {
                    assert(buf.subrange(pos, pos + 8) =~= w.subrange(0, 8));
                    assert(rd64(buf, pos) == Ok::<(u64, int), UassetError>((get64(raw, 0), pos + 8)));
                }
                assert(props =~= seq![]);
            }
        },
        DataModel::Float(b) => {},
        DataModel::String(s) => {
            lemma_string_rt(d, buf, pos);
        },
        DataModel::StringUtf16(s) => {
            lemma_string_rt(d, buf, pos);
        },
        DataModel::MapEntries(pairs) => {
            let kt = meta->MapTypes_0;
            let vt = meta->MapTypes_1;
            let n = pairs.len() as u32;
            lemma_at_split(buf, pos, le32(n), pairs_bytes(pairs, map));
            lemma_pairs_rt(pairs, kt, vt, meta, map, buf, pos + 4, expected);
        },
        DataModel::Name(s) => {
            lemma_name(map, s);
        },
        DataModel::UInt16(v) => {},
        DataModel::UInt32(v) => {},
        DataModel::Int8(v) => {
            lemma_int_casts(v, 0, 0);
        },
        DataModel::Int16(v) => {
            lemma_int_casts(0, v, 0);
        },
        DataModel::Int32(v) => {
            lemma_int_casts(0, 0, v);
        },
    }
}

proof fn lemma_items_rt(
    items: Seq<DataModel>,
    t: Seq<char>,
    meta: MetadataModel,
    map: Seq<Seq<char>>,
    buf: Seq<u8>,
    pos: int,
    expected: usize,
)
    requires
        forall|i: int| 0 <= i < items.len() ==> data_roundtrips(#[trigger] items[i], t, meta, map, false),
        map_ok(map),
        at(buf, pos, items_bytes(items, map)),
    ensures
        parse_items(buf, pos, t, meta, map, expected, items.len() as int) == Ok::<(Seq<DataModel>, int), UassetError>(
            (items, pos + items_bytes(items, map).len()),
        ),
    decreases items,
{
    if items.len() == 0 {
        assert(items =~= seq![]);
    } else {
        let init = items.subrange(0, items.len() - 1);
        let last = items[items.len() - 1];
        lemma_at_split(buf, pos, items_bytes(init, map), data_bytes(last, map));
        assert forall|i: int| 0 <= i < init.len() implies data_roundtrips(#[trigger] init[i], t, meta, map, false) by {
            assert(init[i] == items[i]);
        }
        lemma_items_rt(init, t, meta, map, buf, pos, expected);
        lemma_data_rt(last, t, meta, map, false, buf, pos + items_bytes(init, map).len(), expected);
        assert(init.push(last) =~= items);
    }
}

proof fn lemma_pairs_rt(
    pairs: Seq<(DataModel, DataModel)>,
    kt: Seq<char>,
    vt: Seq<char>,
    meta: MetadataModel,
    map: Seq<Seq<char>>,
    buf: Seq<u8>,
    pos: int,
    expected: usize,
)
    requires
        forall|i: int|
            0 <= i < pairs.len() ==> data_roundtrips((#[trigger] pairs[i]).0, kt, meta, map, false)
                && data_roundtrips(pairs[i].1, vt, meta, map, false),
        map_ok(map),
        at(buf, pos, pairs_bytes(pairs, map)),
    ensures
        parse_pairs(buf, pos, kt, vt, meta, map, expected, pairs.len() as int) == Ok::<
            (Seq<(DataModel, DataModel)>, int),
            UassetError,
        >((pairs, pos + pairs_bytes(pairs, map).len())),
    decreases pairs,
{
    if pairs.len() == 0 {
        assert(pairs =~= seq![]);
    } else {
        let init = pairs.subrange(0, pairs.len() - 1);
        let last = pairs[pairs.len() - 1];
        let kb = data_bytes(last.0, map);
        let vb = data_bytes(last.1, map);
        lemma_at_split(buf, pos, pairs_bytes(init, map) + kb, vb);
        lemma_at_split(buf, pos, pairs_bytes(init, map), kb);
        assert forall|i: int| 0 <= i < init.len() implies data_roundtrips((#[trigger] init[i]).0, kt, meta, map, false)
            && data_roundtrips(init[i].1, vt, meta, map, false) by {
            assert(init[i] == pairs[i]);
        }
        lemma_pairs_rt(init, kt, vt, meta, map, buf, pos, expected);
        let p = pos + pairs_bytes(init, map).len();
        lemma_data_rt(last.0, kt, meta, map, false, buf, p, expected);
        lemma_data_rt(last.1, vt, meta, map, false, buf, p + kb.len(), expected);
        assert(init.push((last.0, last.1)) =~= pairs);
    }
}

proof fn lemma_property_rt(p: PropertyModel, map: Seq<Seq<char>>, buf: Seq<u8>, pos: int)
    requires
        property_roundtrips(p, map),
        map_ok(map),
        at(buf, pos, property_bytes(p, map)),
    ensures
        parse_property(buf, pos, map) == Ok::<(Option<PropertyModel>, int), UassetError>(
            (Some(p), pos + property_bytes(p, map).len()),
        ),
        rd64(buf, pos) == Ok::<(u64, int), UassetError>((index_of(map, p.header.name), pos + 8)),
    decreases p,
{
    let ds = data_size(p.data, map) as usize;
    let hb = header_bytes(p.header, map, ds);
    let mb = metadata_bytes(p.metadata, map);
    let db = data_bytes(p.data, map);
    lemma_at_split(buf, pos, hb + mb, db);
    lemma_at_split(buf, pos, hb, mb);
    lemma_header_rt(p.header, map, ds, buf, pos);
    lemma_metadata_rt(p.metadata, p.header.prop_type, map, buf, pos + 24);
    let expected = (ds as u32) as usize;
    if let DataModel::Struct(ps, raw) = p.data {
        if ps.len() == 0 {
            assert(data_size(p.data, map) == raw.len());
            assert(expected == raw.len());
        }
    }
    lemma_data_rt(p.data, p.header.prop_type, p.metadata, map, true, buf, pos + 24 + mb.len(), expected);
}

proof fn lemma_props_rt(props: Seq<PropertyModel>, map: Seq<Seq<char>>, buf: Seq<u8>, pos: int)
    requires
        forall|i: int| 0 <= i < props.len() ==> property_roundtrips(#[trigger] props[i], map),
        map_ok(map),
        at(buf, pos, props_bytes(props, map) + le64(index_of(map, "None"@))),
    ensures
        parse_props(buf, pos, map) == Ok::<(Seq<PropertyModel>, int), UassetError>(
            (props, pos + props_bytes(props, map).len() + 8),
        ),
        props.len() > 0 ==> rd64(buf, pos) == Ok::<(u64, int), UassetError>(
            (index_of(map, props[0].header.name), pos + 8),
        ),
    decreases props,
{
    lemma_le();
    let marker = le64(index_of(map, "None"@));
    if props.len() == 0 {
        lemma_rd(buf, pos);
        lemma_name(map, "None"@);
        assert(props =~= seq![]);
    } else {
        let rest = props.subrange(1, props.len() as int);
        let first = property_bytes(props[0], map);
        assert(props_bytes(props, map) + marker =~= first + (props_bytes(rest, map) + marker));
        lemma_at_split(buf, pos, first, props_bytes(rest, map) + marker);
        lemma_property_rt(props[0], map, buf, pos);
        assert forall|i: int| 0 <= i < rest.len() implies property_roundtrips(#[trigger] rest[i], map) by {
            assert(rest[i] == props[i + 1]);
        }
        lemma_props_rt(rest, map, buf, pos + first.len());
        assert(seq![props[0]] + rest =~= props);
    }
}


/// A name whose length fits the 15 bits that the name map stores.
pub open spec fn name_entry_roundtrips(name: Seq<char>, t: StringType) -> bool {
    match t {
        StringType::Utf8 => utf8_of(name).len() < 0x8000,
        StringType::Utf16 => encode_utf16(name).len() < 0x8000,
    }
}

/// A summary header as reading gives it back: the padding field reads as
/// zero.
pub open spec fn unpadded_header(h: UObjectSummaryHeader) -> UObjectSummaryHeader {
    UObjectSummaryHeader { pad: 0, ..h }
}

/// A summary as reading gives it back: its header's padding reads as zero.
pub open spec fn unpadded(s: SummaryModel) -> SummaryModel {
    SummaryModel { header: unpadded_header(s.header), ..s }
}

/// An object as reading gives it back: its summary's padding reads as
/// zero.
pub open spec fn unpadded_object(o: ObjectModel) -> ObjectModel {
    ObjectModel { summary: unpadded(o.summary), ..o }
}

/// A summary that reads back, up to its padding: one type per name, a hash
/// table with one slot more than there are names, names short enough for
/// their length field, and a graph-data end that is exactly the end of the
/// remaining bytes.
pub open spec fn summary_roundtrips(s: SummaryModel) -> bool {
    let h = s.header;
    &&& s.name_map_type.len() == s.name_map.len()
    &&& h.name_map_hashes_size >= 8
    &&& h.name_map_hashes_size / 8 - 1 == s.name_map.len()
    &&& forall|i: int|
        0 <= i < s.name_map.len() ==> name_entry_roundtrips(
            #[trigger] s.name_map[i],
            s.name_map_type[i],
        )
    &&& h.graph_data_offset + h.graph_data_size == 64 + names_bytes(
        s.name_map,
        s.name_map_type,
        64,
    ).len() + s.remaining_bytes.len()
    &&& h.graph_data_offset + h.graph_data_size <= i32::MAX
}

proof fn lemma_small_byte(x: u8)
    requires
        x < 128,
    ensures
        x & 0x7f == x,
        x & 0x80 == 0,
        (x | 0x80) & 0x7f == x,
        (x | 0x80) & 0x80 > 0,
{
    assert(x < 128 ==> x & 0x7f == x && x & 0x80 == 0 && (x | 0x80) & 0x7f == x && (x | 0x80) & 0x80 > 0)
        by (bit_vector);
}

proof fn lemma_name_entry_rt(name: Seq<char>, t: StringType, buf: Seq<u8>, pos: int)
    requires
        name_entry_roundtrips(name, t),
        at(buf, pos, name_entry_bytes(name, t, pos)),
    ensures
        parse_name_entry(buf, pos) == Ok::<((Seq<char>, StringType), int), UassetError>(
            ((name, t), pos + name_entry_bytes(name, t, pos).len()),
        ),
{
    lemma_rd(buf, pos);
    lemma_rd(buf, pos + 1);
    match t {
        StringType::Utf8 => {
            let b = utf8_of(name);
            let l = b.len();
            let m1 = (l / 256) as u8;
            let m2 = (l % 256) as u8;
            assert(seq![m1, m2] + b =~= seq![m1] + seq![m2] + b);
            lemma_at_split(buf, pos, seq![m1] + seq![m2], b);
            lemma_at_split(buf, pos, seq![m1], seq![m2]);
            lemma_small_byte(m1);
            assert((m1 & 0x7f) as int * 256 + m2 as int == l);
            encode_utf8_valid_utf8(name);
            encode_utf8_decode_utf8(name);
        },
        StringType::Utf16 => {
            let u = encode_utf16(name);
            let l = u.len();
            let x = (l / 256) as u8;
            let m1 = x | 0x80u8;
            let m2 = (l % 256) as u8;
            let pad: Seq<u8> = if (pos + 2) % 2 > 0 {
                seq![0u8]
            } else {
                seq![]
            };
            assert(seq![m1, m2] + pad + units_bytes(u) =~= seq![m1] + seq![m2] + pad + units_bytes(u));
            lemma_at_split(buf, pos, seq![m1] + seq![m2] + pad, units_bytes(u));
            lemma_at_split(buf, pos, seq![m1] + seq![m2], pad);
            lemma_at_split(buf, pos, seq![m1], seq![m2]);
            lemma_small_byte(x);
            assert((m1 & 0x7f) as int * 256 + m2 as int == l);
            lemma_rd(buf, pos + 2);
            lemma_units_rt(u, buf, pos + 2 + pad.len());
            lemma_decode_encode_utf16(name);
        },
    }
}

proof fn lemma_names_rt(names: Seq<Seq<char>>, types: Seq<StringType>, buf: Seq<u8>, base: int)
    requires
        names.len() <= types.len(),
        forall|i: int| 0 <= i < names.len() ==> name_entry_roundtrips(#[trigger] names[i], types[i]),
        at(buf, base, names_bytes(names, types, base)),
    ensures
        parse_names(buf, base, names.len() as int) == Ok::<((Seq<Seq<char>>, Seq<StringType>), int), UassetError>(
            ((names, types.subrange(0, names.len() as int)), base + names_bytes(names, types, base).len()),
        ),
    decreases names.len(),
{
    if names.len() == 0 {
        assert(names =~= seq![]);
        assert(types.subrange(0, 0) =~= Seq::<StringType>::empty());
    } else {
        let init = names.drop_last();
        let prefix = names_bytes(init, types, base);
        let n = names.len() - 1;
        lemma_at_split(buf, base, prefix, name_entry_bytes(names.last(), types[n], base + prefix.len()));
        assert forall|i: int| 0 <= i < init.len() implies name_entry_roundtrips(#[trigger] init[i], types[i]) by {
            assert(init[i] == names[i]);
        }
        lemma_names_rt(init, types, buf, base);
        assert(name_entry_roundtrips(names[n], types[n]));
        lemma_name_entry_rt(names.last(), types[n], buf, base + prefix.len());
        assert(init.push(names.last()) =~= names);
        assert(types.subrange(0, n).push(types[n]) =~= types.subrange(0, n + 1));
    }
}

proof fn lemma_summary_header_rt(h: UObjectSummaryHeader, buf: Seq<u8>)
    requires
        at(buf, 0, summary_header_bytes(h)),
    ensures
        parse_summary_header(buf, 0) == Ok::<(UObjectSummaryHeader, int), UassetError>((unpadded_header(h), 64)),
        summary_header_bytes(h).len() == 64,
{
    lemma_le();
    let f0 = le64(h.name);
    let f1 = le64(h.source_name);
    let f2 = le32(h.package_flags);
    let f3 = le32(h.cooked_header_size);
    let f4 = le32(h.name_map_names_offset as u32);
    let f5 = le32(h.name_map_names_size as u32);
    let f6 = le32(h.name_map_hashes_offset as u32);
    let f7 = le32(h.name_map_hashes_size as u32);
    let f8 = le32(h.import_map_offset as u32);
    let f9 = le32(h.export_map_offset as u32);
    let f10 = le32(h.export_bundles_offset as u32);
    let f11 = le32(h.graph_data_offset as u32);
    let f12 = le32(h.graph_data_size as u32);
    let f13 = le32(h.pad as u32);
    lemma_at_split(buf, 0, f0 + f1 + f2 + f3 + f4 + f5 + f6 + f7 + f8 + f9 + f10 + f11 + f12, f13);
    lemma_at_split(buf, 0, f0 + f1 + f2 + f3 + f4 + f5 + f6 + f7 + f8 + f9 + f10 + f11, f12);
    lemma_at_split(buf, 0, f0 + f1 + f2 + f3 + f4 + f5 + f6 + f7 + f8 + f9 + f10, f11);
    lemma_at_split(buf, 0, f0 + f1 + f2 + f3 + f4 + f5 + f6 + f7 + f8 + f9, f10);
    lemma_at_split(buf, 0, f0 + f1 + f2 + f3 + f4 + f5 + f6 + f7 + f8, f9);
    lemma_at_split(buf, 0, f0 + f1 + f2 + f3 + f4 + f5 + f6 + f7, f8);
    lemma_at_split(buf, 0, f0 + f1 + f2 + f3 + f4 + f5 + f6, f7);
    lemma_at_split(buf, 0, f0 + f1 + f2 + f3 + f4 + f5, f6);
    lemma_at_split(buf, 0, f0 + f1 + f2 + f3 + f4, f5);
    lemma_at_split(buf, 0, f0 + f1 + f2 + f3, f4);
    lemma_at_split(buf, 0, f0 + f1 + f2, f3);
    lemma_at_split(buf, 0, f0 + f1, f2);
    lemma_at_split(buf, 0, f0, f1);
    lemma_rd(buf, 0);
    lemma_rd(buf, 8);
    lemma_rd(buf, 16);
    lemma_rd(buf, 20);
    lemma_rd(buf, 24);
    lemma_rd(buf, 28);
    lemma_rd(buf, 32);
    lemma_rd(buf, 36);
    lemma_rd(buf, 40);
    lemma_rd(buf, 44);
    lemma_rd(buf, 48);
    lemma_rd(buf, 52);
    lemma_rd(buf, 56);
    lemma_int_casts(0, 0, h.name_map_names_offset);
    lemma_int_casts(0, 0, h.name_map_names_size);
    lemma_int_casts(0, 0, h.name_map_hashes_offset);
    lemma_int_casts(0, 0, h.name_map_hashes_size);
    lemma_int_casts(0, 0, h.import_map_offset);
    lemma_int_casts(0, 0, h.export_map_offset);
    lemma_int_casts(0, 0, h.export_bundles_offset);
    lemma_int_casts(0, 0, h.graph_data_offset);
    lemma_int_casts(0, 0, h.graph_data_size);
}

proof fn lemma_summary_rt(s: SummaryModel, buf: Seq<u8>)
    requires
        summary_roundtrips(s),
        at(buf, 0, summary_bytes(s)),
    ensures
        parse_summary(buf, 0) == Ok::<(SummaryModel, int), UassetError>((unpadded(s), summary_bytes(s).len() as int)),
{
    let hb = summary_header_bytes(s.header);
    let nb = names_bytes(s.name_map, s.name_map_type, 64);
    lemma_at_split(buf, 0, hb + nb, s.remaining_bytes);
    lemma_at_split(buf, 0, hb, nb);
    lemma_summary_header_rt(s.header, buf);
    lemma_names_rt(s.name_map, s.name_map_type, buf, 64);
    assert(s.name_map_type.subrange(0, s.name_map.len() as int) =~= s.name_map_type);
}


/// Writing a summary and reading the bytes back gives the same summary,
/// its padding read as zero.
pub proof fn lemma_summary_roundtrip(s: SummaryModel)
    requires
        summary_roundtrips(s),
    ensures
        parse_summary(summary_bytes(s), 0) == Ok::<(SummaryModel, int), UassetError>(
            (unpadded(s), summary_bytes(s).len() as int),
        ),
{
    let buf = summary_bytes(s);
    assert(buf.subrange(0, buf.len() as int) =~= buf);
    lemma_summary_rt(s, buf);
}

/// An object that reads back as itself: its summary does, its name map is
/// addressable and holds `None`, and each property reads back as itself.
pub open spec fn object_roundtrips(o: ObjectModel) -> bool {
    &&& summary_roundtrips(o.summary)
    &&& map_ok(o.summary.name_map)
    &&& forall|i: int|
        0 <= i < o.properties.len() ==> property_roundtrips(
            #[trigger] o.properties[i],
            o.summary.name_map,
        )
}

/// Writing an object and reading the bytes back gives the same object, its
/// summary's padding read as zero.
pub proof fn lemma_object_roundtrip(o: ObjectModel)
    requires
        object_roundtrips(o),
    ensures
        parse_object(object_bytes(o)) == Ok::<ObjectModel, UassetError>(unpadded_object(o)),
{
    let buf = object_bytes(o);
    let map = o.summary.name_map;
    let sb = summary_bytes(o.summary);
    let marker = le64(index_of(map, "None"@));
    let pb = props_bytes(o.properties, map);
    let tail = seq![0u8, 0u8, 0u8, 0u8];
    assert(buf =~= sb + (pb + marker) + tail);
    assert(buf.subrange(0, buf.len() as int) =~= buf);
    lemma_at_split(buf, 0, sb + (pb + marker), tail);
    lemma_at_split(buf, 0, sb, pb + marker);
    lemma_summary_rt(o.summary, buf);
    lemma_props_rt(o.properties, map, buf, sb.len() as int);
}

/// Writing a property and reading the bytes back gives the same property.
pub proof fn lemma_property_roundtrip(p: PropertyModel, map: Seq<Seq<char>>)
    requires
        property_roundtrips(p, map),
        map_ok(map),
    ensures
        parse_property(property_bytes(p, map), 0, map) == Ok::<(Option<PropertyModel>, int), UassetError>(
            (Some(p), property_bytes(p, map).len() as int),
        ),
{
    let buf = property_bytes(p, map);
    assert(buf.subrange(0, buf.len() as int) =~= buf);
    lemma_property_rt(p, map, buf, 0);
}


/// Writing a summary header and reading the bytes back gives the header,
/// its padding read as zero; the header takes 64 bytes.
pub proof fn lemma_summary_header_roundtrip(h: UObjectSummaryHeader)
    ensures
        parse_summary_header(summary_header_bytes(h), 0) == Ok::<(UObjectSummaryHeader, int), UassetError>(
            (unpadded_header(h), 64),
        ),
        summary_header_bytes(h).len() == 64,
{
    let buf = summary_header_bytes(h);
    assert(buf.subrange(0, buf.len() as int) =~= buf);
    lemma_summary_header_rt(h, buf);
}

/// Reading a summary header takes each field from its fixed place in the
/// 64 bytes at `pos`, least significant byte first: the name from bytes 0
/// to 8, the source name from 8 to 16, the package flags from 16, the
/// cooked header size from 20, the name map's offsets and sizes from 24,
/// 28, 32 and 36, the import map offset from 40, the export map offset from
/// 44, the export bundles offset from 48, the graph data offset and size
/// from 52 and 56; the padding at 60 is skipped and reads as zero.
pub proof fn lemma_summary_header_fields(buf: Seq<u8>, pos: int)
    requires
        0 <= pos,
        pos + 64 <= buf.len(),
    ensures
        match parse_summary_header(buf, pos) {
            Ok((h, q)) => {
                &&& q == pos + 64
                &&& le64(h.name) == buf.subrange(pos, pos + 8)
                &&& le64(h.source_name) == buf.subrange(pos + 8, pos + 16)
                &&& le32(h.package_flags) == buf.subrange(pos + 16, pos + 20)
                &&& le32(h.cooked_header_size) == buf.subrange(pos + 20, pos + 24)
                &&& le32(h.name_map_names_offset as u32) == buf.subrange(pos + 24, pos + 28)
                &&& le32(h.name_map_names_size as u32) == buf.subrange(pos + 28, pos + 32)
                &&& le32(h.name_map_hashes_offset as u32) == buf.subrange(pos + 32, pos + 36)
                &&& le32(h.name_map_hashes_size as u32) == buf.subrange(pos + 36, pos + 40)
                &&& le32(h.import_map_offset as u32) == buf.subrange(pos + 40, pos + 44)
                &&& le32(h.export_map_offset as u32) == buf.subrange(pos + 44, pos + 48)
                &&& le32(h.export_bundles_offset as u32) == buf.subrange(pos + 48, pos + 52)
                &&& le32(h.graph_data_offset as u32) == buf.subrange(pos + 52, pos + 56)
                &&& le32(h.graph_data_size as u32) == buf.subrange(pos + 56, pos + 60)
                &&& h.pad == 0
            },
            Err(_) => false,
        },
{
    lemma_auto_spec_u32_to_from_le_bytes();
    lemma_auto_spec_u64_to_from_le_bytes();
    assert forall|k: int| 0 <= k <= 60 implies #[trigger] le32(((get32(buf, pos + k) as i32) as u32))
        == buf.subrange(pos + k, pos + k + 4) by {
        let x = get32(buf, pos + k);
        assert(((x as i32) as u32) == x) by (bit_vector);
    }
    assert(le32(get32(buf, pos + 16)) == buf.subrange(pos + 16, pos + 20));
    assert(le32(get32(buf, pos + 20)) == buf.subrange(pos + 20, pos + 24));
    assert(le64(get64(buf, pos)) == buf.subrange(pos, pos + 8));
    assert(le64(get64(buf, pos + 8)) == buf.subrange(pos + 8, pos + 16));
    assert(le32(((get32(buf, pos + 24) as i32) as u32)) == buf.subrange(pos + 24, pos + 28));
    assert(le32(((get32(buf, pos + 28) as i32) as u32)) == buf.subrange(pos + 28, pos + 32));
    assert(le32(((get32(buf, pos + 32) as i32) as u32)) == buf.subrange(pos + 32, pos + 36));
    assert(le32(((get32(buf, pos + 36) as i32) as u32)) == buf.subrange(pos + 36, pos + 40));
    assert(le32(((get32(buf, pos + 40) as i32) as u32)) == buf.subrange(pos + 40, pos + 44));
    assert(le32(((get32(buf, pos + 44) as i32) as u32)) == buf.subrange(pos + 44, pos + 48));
    assert(le32(((get32(buf, pos + 48) as i32) as u32)) == buf.subrange(pos + 48, pos + 52));
    assert(le32(((get32(buf, pos + 52) as i32) as u32)) == buf.subrange(pos + 52, pos + 56));
    assert(le32(((get32(buf, pos + 56) as i32) as u32)) == buf.subrange(pos + 56, pos + 60));
}

/// Writing a summary header puts each field at its fixed place in the 64
/// bytes, least significant byte first, in the order that
/// `lemma_summary_header_fields` reads them: the import map offset at bytes
/// 40 to 44, the export map offset at 44 to 48, the padding at 60 to 64.
pub proof fn lemma_summary_header_layout(h: UObjectSummaryHeader)
    ensures
        summary_header_bytes(h).len() == 64,
        summary_header_bytes(h).subrange(0, 8) == le64(h.name),
        summary_header_bytes(h).subrange(8, 16) == le64(h.source_name),
        summary_header_bytes(h).subrange(16, 20) == le32(h.package_flags),
        summary_header_bytes(h).subrange(20, 24) == le32(h.cooked_header_size),
        summary_header_bytes(h).subrange(24, 28) == le32(h.name_map_names_offset as u32),
        summary_header_bytes(h).subrange(28, 32) == le32(h.name_map_names_size as u32),
        summary_header_bytes(h).subrange(32, 36) == le32(h.name_map_hashes_offset as u32),
        summary_header_bytes(h).subrange(36, 40) == le32(h.name_map_hashes_size as u32),
        summary_header_bytes(h).subrange(40, 44) == le32(h.import_map_offset as u32),
        summary_header_bytes(h).subrange(44, 48) == le32(h.export_map_offset as u32),
        summary_header_bytes(h).subrange(48, 52) == le32(h.export_bundles_offset as u32),
        summary_header_bytes(h).subrange(52, 56) == le32(h.graph_data_offset as u32),
        summary_header_bytes(h).subrange(56, 60) == le32(h.graph_data_size as u32),
        summary_header_bytes(h).subrange(60, 64) == le32(h.pad as u32),
{
    lemma_le();
    let buf = summary_header_bytes(h);
    assert(at(buf, 0, buf)) by {
        assert(buf.subrange(0, buf.len() as int) =~= buf);
    }
    let f0 = le64(h.name);
    let f1 = le64(h.source_name);
    let f2 = le32(h.package_flags);
    let f3 = le32(h.cooked_header_size);
    let f4 = le32(h.name_map_names_offset as u32);
    let f5 = le32(h.name_map_names_size as u32);
    let f6 = le32(h.name_map_hashes_offset as u32);
    let f7 = le32(h.name_map_hashes_size as u32);
    let f8 = le32(h.import_map_offset as u32);
    let f9 = le32(h.export_map_offset as u32);
    let f10 = le32(h.export_bundles_offset as u32);
    let f11 = le32(h.graph_data_offset as u32);
    let f12 = le32(h.graph_data_size as u32);
    let f13 = le32(h.pad as u32);
    assert(buf == f0 + f1 + f2 + f3 + f4 + f5 + f6 + f7 + f8 + f9 + f10 + f11 + f12 + f13);
    lemma_at_split(buf, 0, f0 + f1 + f2 + f3 + f4 + f5 + f6 + f7 + f8 + f9 + f10 + f11 + f12, f13);
    lemma_at_split(buf, 0, f0 + f1 + f2 + f3 + f4 + f5 + f6 + f7 + f8 + f9 + f10 + f11, f12);
    lemma_at_split(buf, 0, f0 + f1 + f2 + f3 + f4 + f5 + f6 + f7 + f8 + f9 + f10, f11);
    lemma_at_split(buf, 0, f0 + f1 + f2 + f3 + f4 + f5 + f6 + f7 + f8 + f9, f10);
    lemma_at_split(buf, 0, f0 + f1 + f2 + f3 + f4 + f5 + f6 + f7 + f8, f9);
    lemma_at_split(buf, 0, f0 + f1 + f2 + f3 + f4 + f5 + f6 + f7, f8);
    lemma_at_split(buf, 0, f0 + f1 + f2 + f3 + f4 + f5 + f6, f7);
    lemma_at_split(buf, 0, f0 + f1 + f2 + f3 + f4 + f5, f6);
    lemma_at_split(buf, 0, f0 + f1 + f2 + f3 + f4, f5);
    lemma_at_split(buf, 0, f0 + f1 + f2 + f3, f4);
    lemma_at_split(buf, 0, f0 + f1 + f2, f3);
    lemma_at_split(buf, 0, f0 + f1, f2);
    lemma_at_split(buf, 0, f0, f1);
}

/// Writing a property tag and reading the bytes back gives the tag and the
/// data size it was written with; the tag takes 24 bytes.
pub proof fn lemma_header_roundtrip(h: HeaderModel, map: Seq<Seq<char>>, ds: usize)
    requires
        header_roundtrips(h, map),
        map.len() <= usize::MAX,
    ensures
        parse_header(header_bytes(h, map, ds), 0, map) == Ok::<(Option<(HeaderModel, usize)>, int), UassetError>(
            (Some((h, (ds as u32) as usize)), 24),
        ),
{
    let buf = header_bytes(h, map, ds);
    assert(buf.subrange(0, buf.len() as int) =~= buf);
    lemma_header_rt(h, map, ds, buf, 0);
}

/// Writing metadata and reading the bytes back under the property's type
/// gives the same metadata.
pub proof fn lemma_metadata_roundtrip(m: MetadataModel, t: Seq<char>, map: Seq<Seq<char>>)
    requires
        metadata_roundtrips(m, t, map),
        map.len() <= usize::MAX,
    ensures
        parse_metadata(metadata_bytes(m, map), 0, t, map) == Ok::<(MetadataModel, int), UassetError>(
            (m, metadata_bytes(m, map).len() as int),
        ),
{
    let buf = metadata_bytes(m, map);
    assert(buf.subrange(0, buf.len() as int) =~= buf);
    lemma_metadata_rt(m, t, map, buf, 0);
}

/// Writing a value and reading the bytes back under the property's type
/// and metadata gives the same value; `expected` is the data size the tag
/// announced, which a raw struct takes as its length.
pub proof fn lemma_data_roundtrip(
    d: DataModel,
    t: Seq<char>,
    meta: MetadataModel,
    map: Seq<Seq<char>>,
    top: bool,
    expected: usize,
)
    requires
        data_roundtrips(d, t, meta, map, top),
        map_ok(map),
        top ==> (d matches DataModel::Struct(ps, raw) ==> (ps.len() == 0 ==> expected == raw.len())),
    ensures
        parse_data(data_bytes(d, map), 0, t, meta, map, expected) == Ok::<(DataModel, int), UassetError>(
            (d, data_bytes(d, map).len() as int),
        ),
{
    let buf = data_bytes(d, map);
    assert(buf.subrange(0, buf.len() as int) =~= buf);
    lemma_data_rt(d, t, meta, map, top, buf, 0, expected);
}

} // verus!
