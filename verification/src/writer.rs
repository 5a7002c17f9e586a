//! Writing a package to bytes, exactly as the layout in `format` states.

use crate::format::{
    data_bytes, data_ok, data_size, header_bytes, header_ok, items_bytes, metadata_bytes,
    metadata_ok, name_entry_bytes, names_bytes, object_bytes, object_ok, pairs_bytes,
    pairs_size, property_bytes, property_ok, property_size, props_bytes, props_size,
    string_bytes, string_utf16_bytes, summary_bytes, summary_header_bytes, summary_ok,
    units_bytes, zeros17, parse_object, UassetError,
};
use crate::le_bytes::{le16, le32, le64, lemma_le, push_all, push_u16, push_u32, push_u64};
use crate::names::{find_name, in_map, index_of, names_of};
use crate::reader::{items_model, pairs_model};
use crate::text_codec::{encode_utf16, str_eq, utf16_units, utf8_of};
use crate::types::{
    properties_model, DataModel, IoUObject, ObjectModel, PropertyModel, StringType, UObjectProperty, UObjectPropertyData,
    UObjectPropertyHeader, UObjectPropertyMetadata, UObjectSummary, UObjectSummaryHeader,
};
use vstd::prelude::*;

verus! {

/// The stored index of a name that is in the map.
fn index_in(map: &[String], s: &str) -> (i: u64)
    requires
        in_map(names_of(map@), s@),
    ensures
        i == index_of(names_of(map@), s@),
{
    find_name(map, s).unwrap() as u64
}

/// Appends the little-endian bytes of each code unit.
fn push_units(out: &mut Vec<u8>, u: &Vec<u16>)
    ensures
        final(out)@ == old(out)@ + units_bytes(u@),
{
    let ghost start = out@;
    let n = u.len();
    for i in 0..n
        invariant
            n == u@.len(),
            out@ == start + units_bytes(u@.subrange(0, i as int)),
    {
        let ghost before = out@;
        push_u16(out, u[i]);
        proof {
            let t = u@.subrange(0, i + 1);
            assert(t.subrange(0, t.len() - 1) =~= u@.subrange(0, i as int));
            assert(start + units_bytes(u@.subrange(0, i as int)) + le16(u@[i as int]) =~= start
                + (units_bytes(u@.subrange(0, i as int)) + le16(u@[i as int])));
        }
    }
    assert(u@.subrange(0, n as int) =~= u@);
}

/// Sizes that writers report are never negative.
pub(crate) proof fn lemma_size_nonneg(d: DataModel, map: Seq<Seq<char>>)
    ensures
        data_size(d, map) >= 0,
    decreases d,
{
    match d {
        DataModel::Struct(props, _) => {
            lemma_props_size_nonneg(props, map);
        },
        DataModel::MapEntries(pairs) => {
            lemma_pairs_size_prefix(pairs, map, 0);
        },
        _ => {},
    }
}

pub(crate) proof fn lemma_props_size_nonneg(props: Seq<PropertyModel>, map: Seq<Seq<char>>)
    ensures
        props_size(props, map) >= 0,
    decreases props,
{
    if props.len() > 0 {
        lemma_props_size_nonneg(props.subrange(1, props.len() as int), map);
        assert(property_size(props[0], map) >= 24);
    }
}

/// The size of the first `k` pairs is at most that of all of them.
pub(crate) proof fn lemma_pairs_size_prefix(pairs: Seq<(DataModel, DataModel)>, map: Seq<Seq<char>>, k: int)
    requires
        0 <= k <= pairs.len(),
    ensures
        0 <= pairs_size(pairs.subrange(0, k), map) <= pairs_size(pairs, map),
    decreases pairs,
{
    if pairs.len() > 0 {
        let init = pairs.subrange(0, pairs.len() - 1);
        lemma_size_nonneg(pairs[pairs.len() - 1].0, map);
        lemma_size_nonneg(pairs[pairs.len() - 1].1, map);
        if k == pairs.len() {
            assert(pairs.subrange(0, k) =~= pairs);
            lemma_pairs_size_prefix(init, map, init.len() as int);
            assert(init.subrange(0, init.len() as int) =~= init);
        } else {
            lemma_pairs_size_prefix(init, map, k);
            assert(init.subrange(0, k) =~= pairs.subrange(0, k));
        }
    }
}

impl UObjectSummaryHeader {
    /// The 64 bytes of the header, padding field included.
    pub fn to_bytes(&self) -> (r: Vec<u8>)
        ensures
            r@ == summary_header_bytes(*self),
    {
        let mut r: Vec<u8> = Vec::new();
        push_u64(&mut r, self.name);
        push_u64(&mut r, self.source_name);
        push_u32(&mut r, self.package_flags);
        push_u32(&mut r, self.cooked_header_size);
        push_u32(&mut r, self.name_map_names_offset as u32);
        push_u32(&mut r, self.name_map_names_size as u32);
        push_u32(&mut r, self.name_map_hashes_offset as u32);
        push_u32(&mut r, self.name_map_hashes_size as u32);
        push_u32(&mut r, self.import_map_offset as u32);
        push_u32(&mut r, self.export_map_offset as u32);
        push_u32(&mut r, self.export_bundles_offset as u32);
        push_u32(&mut r, self.graph_data_offset as u32);
        push_u32(&mut r, self.graph_data_size as u32);
        push_u32(&mut r, self.pad as u32);
        assert(r@ =~= summary_header_bytes(*self));
        r
    }
}

impl UObjectSummary {
    /// The bytes of the summary: header, name map, remaining bytes.
    pub fn to_bytes(&self) -> (r: Vec<u8>)
        requires
            summary_ok(self@),
        ensures
            r@ == summary_bytes(self@),
    {
        let ghost names = names_of(self.name_map@);
        let ghost types = self.name_map_type@;
        proof {
            lemma_le();
        }
        let mut result = self.header.to_bytes();
        let n = self.name_map.len();
        for i in 0..n
            invariant
                n == self.name_map@.len(),
                names == names_of(self.name_map@),
                types == self.name_map_type@,
                types.len() >= names.len(),
                result@ == summary_header_bytes(self.header) + names_bytes(
                    names.subrange(0, i as int),
                    types,
                    64,
                ),
        {
            let ghost before = result@;
            let ghost prefix = names_bytes(names.subrange(0, i as int), types, 64);
            let name = &self.name_map[i];
            match self.name_map_type[i] {
                StringType::Utf16 => {
                    let units = utf16_units(name.as_str());
                    result.push(((units.len() / 256) as u8) | 0x80);
                    result.push((units.len() % 256) as u8);
                    if result.len() % 2 > 0 {
                        result.push(0);
                    }
                    push_units(&mut result, &units);
                },
                StringType::Utf8 => {
                    let bytes = name.as_str().as_bytes();
                    result.push((bytes.len() / 256) as u8);
                    result.push((bytes.len() % 256) as u8);
                    push_all(&mut result, bytes);
                },
            }
            proof {
                let t = names.subrange(0, i + 1);
                assert(t.drop_last() =~= names.subrange(0, i as int));
                assert(t.last() == name@);
                lemma_le();
                assert(before.len() == 64 + prefix.len());
                assert(result@ =~= summary_header_bytes(self.header) + (prefix + name_entry_bytes(
                    name@,
                    types[i as int],
                    64 + prefix.len() as int,
                )));
            }
        }
        proof {
            assert(names.subrange(0, n as int) =~= names);
        }
        push_all(&mut result, self.remaining_bytes.as_slice());
        result
    }
}

impl UObjectPropertyHeader {
    /// Writes the tag, announcing `data_size` bytes of value. A tag named
    /// `None` is written as its name index alone, and the result is then
    /// `false`: it marks the end of a property list.
    pub fn to_bytes(&self, out: &mut Vec<u8>, name_map: &[String], data_size: usize) -> (r: bool)
        requires
            header_ok(self@, names_of(name_map@)),
        ensures
            final(out)@ == old(out)@ + header_bytes(self@, names_of(name_map@), data_size),
            r == (self.name@ != "None"@),
    {
        let name_index = index_in(name_map, self.name.as_str());
        if str_eq(self.name.as_str(), "None") {
            push_u64(out, name_index);
            false
        } else {
            let type_index = index_in(name_map, self.prop_type.as_str());
            push_u64(out, name_index);
            push_u64(out, type_index);
            push_u32(out, data_size as u32);
            push_u32(out, self.arr_index as u32);
            true
        }
    }
}

impl UObjectPropertyMetadata {
    /// Writes the metadata and returns how many bytes that took.
    pub fn to_bytes(&self, out: &mut Vec<u8>, name_map: &[String]) -> (r: usize)
        requires
            metadata_ok(self@, names_of(name_map@)),
        ensures
            final(out)@ == old(out)@ + metadata_bytes(self@, names_of(name_map@)),
            r == metadata_bytes(self@, names_of(name_map@)).len(),
    {
        proof {
            lemma_le();
        }
        match self {
            UObjectPropertyMetadata::Array(item) => {
                push_u64(out, index_in(name_map, item.as_str()));
                out.push(0);
                8 + 1
            },
            UObjectPropertyMetadata::Bool(v) => {
                if *v {
                    out.push(1);
                } else {
                    out.push(0);
                }
                out.push(0);
                2
            },
            UObjectPropertyMetadata::Byte(e, v) => {
                push_u64(out, *e);
                out.push(*v);
                8 + 1
            },
            UObjectPropertyMetadata::Enum(name) => {
                push_u64(out, index_in(name_map, name.as_str()));
                out.push(0);
                8 + 1
            },
            UObjectPropertyMetadata::MapTypes(k, v) => {
                let ki = index_in(name_map, k.as_str());
                let vi = index_in(name_map, v.as_str());
                push_u64(out, ki);
                push_u64(out, vi);
                out.push(0);
                push_u32(out, 0);
                8 + 8 + 1 + 4
            },
            UObjectPropertyMetadata::Struct(data) => {
                push_all(out, data.as_slice());
                data.len()
            },
            UObjectPropertyMetadata::Empty => {
                out.push(0);
                1
            },
        }
    }
}


impl UObjectPropertyData {
    /// Writes the value and returns the size to announce in its tag: the
    /// bytes written, except that a map counts four bytes more and a list
    /// of properties counts 24 bytes for each `None`-named tag in it.
    pub fn to_bytes(&self, out: &mut Vec<u8>, name_map: &[String]) -> (r: usize)
        requires
            data_ok(self@, names_of(name_map@)),
        ensures
            final(out)@ == old(out)@ + data_bytes(self@, names_of(name_map@)),
            r == data_size(self@, names_of(name_map@)),
        decreases self,
    {
        let ghost map = names_of(name_map@);
        proof {
            lemma_le();
        }
        match self {
            UObjectPropertyData::Array(items, schema) => {
                let ghost m = self@->Array_0;
                assert(m =~= items_model(items@));
                push_u32(out, items.len() as u32);
                let mut data: Vec<u8> = Vec::new();
                write_items(items, &mut data, name_map);
                assert(data@ =~= items_bytes(m, map));
                let mut written: usize = 4;
                match schema {
                    Some((h, array_name)) => {
                        h.to_bytes(out, name_map, data.len());
                        written = written + UObjectPropertyHeader::byte_len();
                        push_u64(out, index_in(name_map, array_name.as_str()));
                        written = written + 8;
                        let zeros = [0u8; 17];
                        assert(zeros@ =~= zeros17());
                        push_all(out, &zeros);
                        written = written + 17;
                    },
                    None => {},
                }
                push_all(out, data.as_slice());
                written = written + data.len();
                written
            },
            UObjectPropertyData::Bool => {
                assert(out@ =~= old(out)@ + Seq::<u8>::empty());
                0
            },
            UObjectPropertyData::Byte(v) => {
                out.push(*v);
                1
            },
            UObjectPropertyData::Enum(s) => {
                push_u64(out, index_in(name_map, s.as_str()));
                8
            },
            UObjectPropertyData::Struct(props, raw) => {
                if props.len() > 0 {
                    let ghost m = self@->Struct_0;
                    assert(m =~= properties_model(props@));
                    let len = write_props(props, out, name_map);
                    let none_index = index_in(name_map, "None");
                    push_u64(out, none_index);
                    len + 8
                } else {
                    push_all(out, raw.as_slice());
                    raw.len()
                }
            },
            UObjectPropertyData::Float(b) => {
                push_u32(out, *b);
                4
            },
            UObjectPropertyData::String(val) => {
                if val.as_str().is_empty() {
                    push_u32(out, 0);
                    0 + 4
                } else {
                    let bytes = val.as_str().as_bytes();
                    let len = bytes.len() + 1;
                    push_u32(out, len as u32);
                    push_all(out, bytes);
                    out.push(0);
                    4 + len
                }
            },
            UObjectPropertyData::StringUtf16(val) => {
                let units = utf16_units(val.as_str());
                let len = units.len() + 1;
                push_u32(out, (-(len as i32)) as u32);
                push_units(out, &units);
                push_u16(out, 0);
                4 + (len * 2)
            },
            UObjectPropertyData::MapEntries(pairs) => {
                let ghost m = self@->MapEntries_0;
                assert(m =~= pairs_model(pairs@));
                push_u32(out, pairs.len() as u32);
                let size = write_pairs(pairs, out, name_map);
                8 + size
            },
            UObjectPropertyData::Name(s) => {
                push_u64(out, index_in(name_map, s.as_str()));
                8
            },
            UObjectPropertyData::UInt16(v) => {
                push_u16(out, *v);
                2
            },
            UObjectPropertyData::UInt32(v) => {
                push_u32(out, *v);
                4
            },
            UObjectPropertyData::Int8(v) => {
                out.push(*v as u8);
                1
            },
            UObjectPropertyData::Int16(v) => {
                push_u16(out, *v as u16);
                2
            },
            UObjectPropertyData::Int32(v) => {
                push_u32(out, *v as u32);
                4
            },
        }
    }
}

impl UObjectProperty {
    /// Writes the property and returns the size it reports: tag, metadata
    /// and value, or 24 for a tag named `None`, of which only the name
    /// index is written.
    pub fn to_bytes(&self, out: &mut Vec<u8>, name_map: &[String]) -> (r: usize)
        requires
            property_ok(self@, names_of(name_map@)),
        ensures
            final(out)@ == old(out)@ + property_bytes(self@, names_of(name_map@)),
            r == property_size(self@, names_of(name_map@)),
        decreases self,
    {
        let mut data: Vec<u8> = Vec::new();
        let data_size = self.data.to_bytes(&mut data, name_map);
        assert(data@ =~= data_bytes(self.data@, names_of(name_map@)));
        if self.header.to_bytes(out, name_map, data_size) {
            let meta_len = self.metadata.to_bytes(out, name_map);
            push_all(out, data.as_slice());
            UObjectPropertyHeader::byte_len() + data.len() + meta_len
        } else {
            UObjectPropertyHeader::byte_len()
        }
    }
}


/// Writes each value in turn.
fn write_items(items: &Vec<UObjectPropertyData>, out: &mut Vec<u8>, name_map: &[String])
    requires
        forall|j: int|
            0 <= j < items@.len() ==> data_ok(#[trigger] items_model(items@)[j], names_of(name_map@)),
    ensures
        final(out)@ == old(out)@ + items_bytes(items_model(items@), names_of(name_map@)),
    decreases items,
{
    let ghost map = names_of(name_map@);
    let ghost m = items_model(items@);
    let ghost start = out@;
    let n = items.len();
    for i in 0..n
        invariant
            n == items@.len(),
            m == items_model(items@),
            map == names_of(name_map@),
            forall|j: int| 0 <= j < n ==> data_ok(#[trigger] m[j], map),
            out@ == start + items_bytes(m.subrange(0, i as int), map),
    {
        proof {
            assert(decreases_to!(items => items@[i as int]));
            assert(m[i as int] == items@[i as int]@);
            assert(data_ok(m[i as int], map));
        }
        items[i].to_bytes(out, name_map);
        proof {
            let t = m.subrange(0, i + 1);
            assert(t.subrange(0, t.len() - 1) =~= m.subrange(0, i as int));
        }
    }
    assert(m.subrange(0, n as int) =~= m);
}

/// Writes each property in turn and returns the sum of the sizes they report.
fn write_props(props: &Vec<UObjectProperty>, out: &mut Vec<u8>, name_map: &[String]) -> (r: usize)
    requires
        forall|j: int|
            0 <= j < props@.len() ==> property_ok(#[trigger] properties_model(props@)[j], names_of(name_map@)),
        props_size(properties_model(props@), names_of(name_map@)) + 8 <= usize::MAX,
    ensures
        final(out)@ == old(out)@ + props_bytes(properties_model(props@), names_of(name_map@)),
        r == props_size(properties_model(props@), names_of(name_map@)),
    decreases props,
{
    let ghost map = names_of(name_map@);
    let ghost m = properties_model(props@);
    let ghost start = out@;
    let ghost mut prefix = Seq::<u8>::empty();
    let mut len: usize = 0;
    let n = props.len();
    proof {
        assert(m.subrange(0, n as int) =~= m);
    }
    for i in 0..n
        invariant
            n == props@.len(),
            m == properties_model(props@),
            map == names_of(name_map@),
            forall|j: int| 0 <= j < n ==> property_ok(#[trigger] m[j], map),
            props_size(m, map) + 8 <= usize::MAX,
            len + props_size(m.subrange(i as int, n as int), map) == props_size(m, map),
            prefix + props_bytes(m.subrange(i as int, n as int), map) == props_bytes(m, map),
            out@ == start + prefix,
    {
        let ghost rest = m.subrange(i as int, n as int);
        proof {
            assert(rest.subrange(1, rest.len() as int) =~= m.subrange(i + 1, n as int));
            assert(rest[0] == m[i as int]);
            lemma_props_size_nonneg(m.subrange(i + 1, n as int), map);
            assert(decreases_to!(props => props@[i as int]));
        }
        let k = props[i].to_bytes(out, name_map);
        len = len + k;
        proof {
            assert(prefix + property_bytes(m[i as int], map) + props_bytes(
                m.subrange(i + 1, n as int),
                map,
            ) =~= prefix + props_bytes(rest, map));
            prefix = prefix + property_bytes(m[i as int], map);
        }
    }
    proof {
        assert(m.subrange(n as int, n as int) =~= Seq::<PropertyModel>::empty());
        assert(prefix + Seq::<u8>::empty() =~= prefix);
    }
    len
}

/// Writes each key and value in turn and returns the sum of the sizes they
/// report.
fn write_pairs(
    pairs: &Vec<(UObjectPropertyData, UObjectPropertyData)>,
    out: &mut Vec<u8>,
    name_map: &[String],
) -> (r: usize)
    requires
        forall|j: int|
            0 <= j < pairs@.len() ==> data_ok((#[trigger] pairs_model(pairs@)[j]).0, names_of(name_map@))
                && data_ok(pairs_model(pairs@)[j].1, names_of(name_map@)),
        8 + pairs_size(pairs_model(pairs@), names_of(name_map@)) <= usize::MAX,
    ensures
        final(out)@ == old(out)@ + pairs_bytes(pairs_model(pairs@), names_of(name_map@)),
        r == pairs_size(pairs_model(pairs@), names_of(name_map@)),
    decreases pairs,
{
    let ghost map = names_of(name_map@);
    let ghost m = pairs_model(pairs@);
    let ghost start = out@;
    let mut size: usize = 0;
    let n = pairs.len();
    proof {
        assert(m.subrange(0, 0) =~= Seq::<(DataModel, DataModel)>::empty());
    }
    for i in 0..n
        invariant
            n == pairs@.len(),
            m == pairs_model(pairs@),
            map == names_of(name_map@),
            forall|j: int| 0 <= j < n ==> data_ok((#[trigger] m[j]).0, map) && data_ok(m[j].1, map),
            8 + pairs_size(m, map) <= usize::MAX,
            size == pairs_size(m.subrange(0, i as int), map),
            out@ == start + pairs_bytes(m.subrange(0, i as int), map),
    {
        proof {
            let t = m.subrange(0, i + 1);
            assert(t.subrange(0, t.len() - 1) =~= m.subrange(0, i as int));
            lemma_pairs_size_prefix(m, map, i + 1);
            lemma_size_nonneg(m[i as int].0, map);
            lemma_size_nonneg(m[i as int].1, map);
            assert(decreases_to!(pairs => pairs@[i as int].0));
            assert(decreases_to!(pairs => pairs@[i as int].1));
        }
        let ks = pairs[i].0.to_bytes(out, name_map);
        size = size + ks;
        let vs = pairs[i].1.to_bytes(out, name_map);
        size = size + vs;
    }
    proof {
        assert(m.subrange(0, n as int) =~= m);
    }
    size
}


impl IoUObject {
    /// Writes the object: summary, properties, the `None` marker and four
    /// zero bytes; returns the number of bytes written.
    pub fn to_bytes(&self, out: &mut Vec<u8>) -> (r: usize)
        requires
            object_ok(self@),
        ensures
            final(out)@ == old(out)@ + object_bytes(self@),
            r == object_bytes(self@).len(),
            crate::laws::object_roundtrips(self@) ==> parse_object(object_bytes(self@)) == Ok::<
                ObjectModel,
                UassetError,
            >(crate::laws::unpadded_object(self@)),
    {
        let ghost map = names_of(self.summary.name_map@);
        let ghost m = properties_model(self.properties@);
        let name_map = self.summary.name_map.as_slice();
        let mut properties_bytes: Vec<u8> = Vec::new();
        let ghost mut prefix = Seq::<u8>::empty();
        let n = self.properties.len();
        proof {
            assert(m.subrange(0, n as int) =~= m);
        }
        for i in 0..n
            invariant
                n == self.properties@.len(),
                m == properties_model(self.properties@),
                map == names_of(name_map@),
                forall|j: int| 0 <= j < n ==> property_ok(#[trigger] m[j], map),
                prefix + props_bytes(m.subrange(i as int, n as int), map) == props_bytes(m, map),
                properties_bytes@ == prefix,
        {
            let ghost rest = m.subrange(i as int, n as int);
            proof {
                assert(rest.subrange(1, rest.len() as int) =~= m.subrange(i + 1, n as int));
                assert(rest[0] == m[i as int]);
            }
            self.properties[i].to_bytes(&mut properties_bytes, name_map);
            proof {
                assert(prefix + property_bytes(m[i as int], map) + props_bytes(
                    m.subrange(i + 1, n as int),
                    map,
                ) =~= prefix + props_bytes(rest, map));
                prefix = prefix + property_bytes(m[i as int], map);
            }
        }
        proof {
            assert(m.subrange(n as int, n as int) =~= Seq::<PropertyModel>::empty());
            assert(prefix + Seq::<u8>::empty() =~= prefix);
        }
        let none_index = index_in(name_map, "None");
        push_u64(&mut properties_bytes, none_index);
        let summary_bytes = self.summary.to_bytes();
        push_all(out, summary_bytes.as_slice());
        push_all(out, properties_bytes.as_slice());
        let tail = [0u8; 4];
        push_all(out, &tail);
        proof {
            assert(tail@ =~= seq![0u8, 0u8, 0u8, 0u8]);
            assert(out@ =~= old(out)@ + object_bytes(self@));
            if crate::laws::object_roundtrips(self@) {
                crate::laws::lemma_object_roundtrip(self@);
            }
        }
        summary_bytes.len() + properties_bytes.len() + 4
    }
}

} // verus!
