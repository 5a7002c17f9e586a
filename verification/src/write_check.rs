//! Whether a package can be written as bytes: every name it refers to is in
//! the name map and every length its writers compute fits in a `usize`.

use crate::format::{
    data_bytes, data_ok, data_size, header_bytes, header_ok, items_bytes, metadata_bytes,
    metadata_ok, object_bytes, object_ok, pairs_bytes, pairs_size, property_bytes, property_ok,
    property_size, props_bytes, props_size, summary_bytes, summary_ok,
};
use crate::le_bytes::{le32, le64, lemma_le};
use crate::names::{find_name, in_map, index_of, names_of};
use crate::writer::{lemma_pairs_size_prefix, lemma_props_size_nonneg, lemma_size_nonneg};
use crate::reader::{items_model, pairs_model};
use crate::text_codec::{encode_utf16, str_eq, utf16_units, utf8_of};
use crate::types::{
    properties_model, DataModel, HeaderModel, IoUObject, MetadataModel, PropertyModel,
    UObjectProperty, UObjectPropertyData, UObjectPropertyHeader, UObjectPropertyMetadata,
};
use vstd::prelude::*;

verus! {

/// Whether `s` is in the map.
fn has_name(map: &[String], s: &str) -> (b: bool)
    ensures
        b == in_map(names_of(map@), s@),
{
    match find_name(map, s) {
        Some(_) => true,
        None => false,
    }
}

/// A complete property tag takes the 24 bytes that
/// `UObjectPropertyHeader::byte_len` gives; the `None` tag that ends a list
/// takes its eight-byte name index alone.
pub proof fn lemma_header_len(h: HeaderModel, map: Seq<Seq<char>>, size: usize)
    ensures
        header_bytes(h, map, size).len() == if h.name == "None"@ {
            8int
        } else {
            24int
        },
{
    lemma_le();
}

proof fn lemma_units_len(u: Seq<u16>)
    ensures
        crate::format::units_bytes(u).len() == 2 * u.len(),
    decreases u.len(),
{
    lemma_le();
    if u.len() > 0 {
        lemma_units_len(u.subrange(0, u.len() - 1));
    }
}

/// A value's bytes are never more than the size its writer reports.
proof fn lemma_bytes_le_size(d: DataModel, map: Seq<Seq<char>>)
    ensures
        data_bytes(d, map).len() <= data_size(d, map),
    decreases d,
{
    lemma_le();
    match d {
        DataModel::Array(items, schema) => {
            match schema {
                Some((h, n)) => {
                    lemma_header_len(h, map, items_bytes(items, map).len() as usize);
                    assert(crate::format::zeros17().len() == 17);
                },
                None => {},
            }
        },
        DataModel::StringUtf16(s) => {
            lemma_units_len(encode_utf16(s));
        },
        DataModel::Struct(props, _) => {
            lemma_props_le(props, map);
        },
        DataModel::MapEntries(pairs) => {
            lemma_pairs_le(pairs, map);
        },
        _ => {},
    }
}

/// The size that a value's writer reports, which becomes the data size of
/// its tag, is the number of bytes it writes: a flag writes nothing and
/// reports nothing, its value being in the metadata. The exceptions are a
/// map, whose count is not reported, a list of properties, and a list whose
/// item schema is a `None` tag: there a `None` tag counts 24 bytes and
/// takes eight.
pub proof fn lemma_size_is_length(d: DataModel, map: Seq<Seq<char>>)
    requires
        !(d is MapEntries),
        d matches DataModel::Struct(props, _) ==> props.len() == 0,
        d matches DataModel::Array(_, Some((h, _))) ==> h.name != "None"@,
    ensures
        data_size(d, map) == data_bytes(d, map).len(),
{
    lemma_le();
    match d {
        DataModel::Array(items, schema) => {
            match schema {
                Some((h, n)) => {
                    lemma_header_len(h, map, items_bytes(items, map).len() as usize);
                    assert(crate::format::zeros17().len() == 17);
                },
                None => {},
            }
        },
        DataModel::StringUtf16(s) => {
            lemma_units_len(encode_utf16(s));
        },
        _ => {},
    }
}

/// In a written property that is not a `None` tag, the tag's data-size
/// field, bytes 16 to 20, holds the number of value bytes that follow the
/// metadata, for every value that `lemma_size_is_length` covers.
pub proof fn lemma_tag_announces_value_length(p: PropertyModel, map: Seq<Seq<char>>)
    requires
        p.header.name != "None"@,
        !(p.data is MapEntries),
        p.data matches DataModel::Struct(props, _) ==> props.len() == 0,
        p.data matches DataModel::Array(_, Some((h, _))) ==> h.name != "None"@,
        data_bytes(p.data, map).len() <= u32::MAX,
    ensures
        property_bytes(p, map).subrange(16, 20) == le32(data_bytes(p.data, map).len() as u32),
        property_bytes(p, map).subrange(
            property_bytes(p, map).len() - data_bytes(p.data, map).len(),
            property_bytes(p, map).len() as int,
        ) == data_bytes(p.data, map),
{
    lemma_le();
    lemma_size_is_length(p.data, map);
    let n = data_bytes(p.data, map).len();
    let hb = header_bytes(p.header, map, data_size(p.data, map) as usize);
    let a = le64(index_of(map, p.header.name)) + le64(index_of(map, p.header.prop_type));
    let f = le32(n as u32);
    let rest = le32(p.header.arr_index as u32) + metadata_bytes(p.metadata, map) + data_bytes(p.data, map);
    assert(hb == a + f + le32(p.header.arr_index as u32));
    assert(property_bytes(p, map) =~= a + f + rest);
    assert((a + f + rest).subrange(16, 20) =~= f);
    let b = property_bytes(p, map);
    assert(b.subrange(b.len() - n, b.len() as int) =~= data_bytes(p.data, map));
}

proof fn lemma_pairs_le(pairs: Seq<(DataModel, DataModel)>, map: Seq<Seq<char>>)
    ensures
        pairs_bytes(pairs, map).len() <= pairs_size(pairs, map),
    decreases pairs,
{
    if pairs.len() > 0 {
        lemma_pairs_le(pairs.subrange(0, pairs.len() - 1), map);
        lemma_bytes_le_size(pairs[pairs.len() - 1].0, map);
        lemma_bytes_le_size(pairs[pairs.len() - 1].1, map);
    }
}

proof fn lemma_props_le(props: Seq<PropertyModel>, map: Seq<Seq<char>>)
    ensures
        props_bytes(props, map).len() <= props_size(props, map),
    decreases props,
{
    if props.len() > 0 {
        lemma_props_le(props.subrange(1, props.len() as int), map);
        let p = props[0];
        lemma_header_len(p.header, map, data_size(p.data, map) as usize);
        assert(property_bytes(p, map).len() <= property_size(p, map));
    }
}

/// The bytes a value is written as and the size its writer reports, where
/// it can be written.
fn data_measure(d: &UObjectPropertyData, map: &[String]) -> (r: Option<(usize, usize)>)
    ensures
        r matches Some((b, z)) ==> data_ok(d@, names_of(map@)) && b == data_bytes(d@, names_of(map@)).len()
            && z == data_size(d@, names_of(map@)),
        r is None ==> !data_ok(d@, names_of(map@)),
    decreases d,
{
    let ghost m = names_of(map@);
    proof {
        lemma_le();
        lemma_bytes_le_size(d@, m);
    }
    match d {
        UObjectPropertyData::Array(items, schema) => {
            assert(d@->Array_0 =~= items_model(items@));
            let body = items_measure(items, map)?;
            let (head, head_bytes): (usize, usize) = match schema {
                Some((h, n)) => {
                    if !has_name(map, h.name.as_str()) || !has_name(map, n.as_str()) {
                        return None;
                    }
                    let unnamed = str_eq(h.name.as_str(), "None");
                    if !unnamed && !has_name(map, h.prop_type.as_str()) {
                        return None;
                    }
                    proof {
                        lemma_header_len(h@, m, body as usize);
                    }
                    (49, if unnamed {
                        33
                    } else {
                        49
                    })
                },
                None => (0, 0),
            };
            if body > usize::MAX - 4 - head {
                return None;
            }
            let z = 4 + head + body;
            proof {
                match schema {
                    Some((h, n)) => {
                        lemma_header_len(h@, m, body as usize);
                    },
                    None => {},
                }
            }
            assert(data_ok(d@, m));
            assert(4 + head_bytes + body == data_bytes(d@, m).len());
            Some((4 + head_bytes + body, z))
        },
        UObjectPropertyData::Bool => Some((0, 0)),
        UObjectPropertyData::Byte(_) => Some((1, 1)),
        UObjectPropertyData::Enum(s) => if has_name(map, s.as_str()) {
            Some((8, 8))
        } else {
            None
        },
        UObjectPropertyData::Struct(props, raw) => {
            if props.len() > 0 {
                assert(d@->Struct_0 =~= properties_model(props@));
                if !has_name(map, "None") {
                    return None;
                }
                proof {
                    lemma_props_le(properties_model(props@), m);
                }
                match props_measure(props, map) {
                    Some((b, Some(z))) => {
                        if z > usize::MAX - 8 {
                            None
                        } else {
                            assert(data_ok(d@, m));
                            assert(b + 8 == data_bytes(d@, m).len());
                            Some((b + 8, z + 8))
                        }
                    },
                    _ => None,
                }
            } else {
                Some((raw.len(), raw.len()))
            }
        },
        UObjectPropertyData::Float(_) => Some((4, 4)),
        UObjectPropertyData::String(s) => {
            if s.as_str().is_empty() {
                Some((4, 4))
            } else {
                let l = s.as_str().as_bytes().len();
                if l > usize::MAX - 5 {
                    None
                } else {
                    assert(data_ok(d@, m));
                    Some((4 + l + 1, 4 + l + 1))
                }
            }
        },
        UObjectPropertyData::StringUtf16(s) => {
            let u = utf16_units(s.as_str()).len();
            if u > (usize::MAX - 4) / 2 - 1 {
                return None;
            }
            if (u + 1) as i32 == i32::MIN {
                return None;
            }
            proof {
                lemma_units_len(encode_utf16(s@));
            }
            assert(data_ok(d@, m));
            Some((4 + (u + 1) * 2, 4 + (u + 1) * 2))
        },
        UObjectPropertyData::MapEntries(pairs) => {
            assert(d@->MapEntries_0 =~= pairs_model(pairs@));
            let (b, z) = pairs_measure(pairs, map)?;
            if z > usize::MAX - 8 {
                None
            } else {
                assert(data_ok(d@, m));
                Some((b + 4, z + 8))
            }
        },
        UObjectPropertyData::Name(s) => if has_name(map, s.as_str()) {
            Some((8, 8))
        } else {
            None
        },
        UObjectPropertyData::UInt16(_) => Some((2, 2)),
        UObjectPropertyData::UInt32(_) => Some((4, 4)),
        UObjectPropertyData::Int8(_) => Some((1, 1)),
        UObjectPropertyData::Int16(_) => Some((2, 2)),
        UObjectPropertyData::Int32(_) => Some((4, 4)),
    }
}

/// The bytes of metadata that can be written.
fn meta_measure(m: &UObjectPropertyMetadata, map: &[String]) -> (r: Option<usize>)
    ensures
        r matches Some(l) ==> metadata_ok(m@, names_of(map@)) && l == metadata_bytes(m@, names_of(map@)).len(),
        r is None ==> !metadata_ok(m@, names_of(map@)),
{
    proof {
        lemma_le();
    }
    match m {
        UObjectPropertyMetadata::Array(t) => if has_name(map, t.as_str()) {
            Some(9)
        } else {
            None
        },
        UObjectPropertyMetadata::Bool(_) => Some(2),
        UObjectPropertyMetadata::Byte(_, _) => Some(9),
        UObjectPropertyMetadata::Enum(t) => if has_name(map, t.as_str()) {
            Some(9)
        } else {
            None
        },
        UObjectPropertyMetadata::MapTypes(k, v) => if has_name(map, k.as_str()) && has_name(map, v.as_str()) {
            Some(21)
        } else {
            None
        },
        UObjectPropertyMetadata::Struct(d) => Some(d.len()),
        UObjectPropertyMetadata::Empty => Some(1),
    }
}

/// The bytes a property is written as and the size its writer reports,
/// where it can be written.
fn property_measure(p: &UObjectProperty, map: &[String]) -> (r: Option<(usize, usize)>)
    ensures
        r matches Some((b, z)) ==> property_ok(p@, names_of(map@)) && b == property_bytes(p@, names_of(map@)).len()
            && z == property_size(p@, names_of(map@)),
        r is None ==> !property_ok(p@, names_of(map@)),
    decreases p,
{
    let ghost m = names_of(map@);
    proof {
        lemma_le();
        lemma_header_len(p@.header, m, data_size(p@.data, m) as usize);
    }
    assert(decreases_to!(p => p.data));
    let (db, dz) = data_measure(&p.data, map)?;
    if !has_name(map, p.header.name.as_str()) {
        return None;
    }
    if str_eq(p.header.name.as_str(), "None") {
        return Some((8, 24));
    }
    if !has_name(map, p.header.prop_type.as_str()) {
        return None;
    }
    let ml = meta_measure(&p.metadata, map)?;
    if db > usize::MAX - 24 || ml > usize::MAX - 24 - db {
        return None;
    }
    Some((24 + ml + db, 24 + db + ml))
}

/// The bytes of properties that can all be written, and the sum of the
/// sizes they report where that fits.
fn props_measure(props: &Vec<UObjectProperty>, map: &[String]) -> (r: Option<(usize, Option<usize>)>)
    ensures
        r matches Some((b, zs)) ==> (forall|j: int|
            0 <= j < props@.len() ==> property_ok(#[trigger] properties_model(props@)[j], names_of(map@)))
            && b == props_bytes(properties_model(props@), names_of(map@)).len() && (zs matches Some(z) ==> z
            == props_size(properties_model(props@), names_of(map@))) && (zs is None ==> props_size(
            properties_model(props@),
            names_of(map@),
        ) > usize::MAX),
        r is None ==> !(forall|j: int|
            0 <= j < props@.len() ==> property_ok(#[trigger] properties_model(props@)[j], names_of(map@)))
            || props_bytes(properties_model(props@), names_of(map@)).len() > usize::MAX,
    decreases props,
{
    let ghost m = names_of(map@);
    let ghost model = properties_model(props@);
    let n = props.len();
    let mut b: usize = 0;
    let mut z: Option<usize> = Some(0);
    let ghost mut zi: int = 0;
    assert(model.subrange(0, n as int) =~= model);
    for i in 0..n
        invariant
            n == props@.len(),
            model == properties_model(props@),
            m == names_of(map@),
            forall|j: int| 0 <= j < i ==> property_ok(#[trigger] model[j], m),
            b + props_bytes(model.subrange(i as int, n as int), m).len() == props_bytes(model, m).len(),
            zi + props_size(model.subrange(i as int, n as int), m) == props_size(model, m),
            z matches Some(v) ==> v == zi,
            z is None ==> zi > usize::MAX,
            zi >= 0,
    {
        let ghost rest = model.subrange(i as int, n as int);
        proof {
            assert(rest.subrange(1, rest.len() as int) =~= model.subrange(i + 1, n as int));
            assert(rest[0] == model[i as int]);
            lemma_props_size_nonneg(model.subrange(i + 1, n as int), m);
        }
        assert(decreases_to!(props => props@[i as int]));
        let (pb, pz) = match property_measure(&props[i], map) {
            Some(x) => x,
            None => {
                assert(!property_ok(model[i as int], m));
                return None;
            },
        };
        if b > usize::MAX - pb {
            return None;
        }
        b = b + pb;
        z = match z {
            Some(v) => if v > usize::MAX - pz {
                None
            } else {
                Some(v + pz)
            },
            None => None,
        };
        proof {
            zi = zi + pz;
        }
    }
    proof {
        assert(model.subrange(n as int, n as int) =~= Seq::<PropertyModel>::empty());
    }
    Some((b, z))
}

/// The bytes pairs are written as and the sum of the sizes they report,
/// where they can all be written.
#[verifier::spinoff_prover]
fn pairs_measure(pairs: &Vec<(UObjectPropertyData, UObjectPropertyData)>, map: &[String]) -> (r: Option<(usize, usize)>)
    ensures
        r matches Some((b, z)) ==> (forall|j: int|
            0 <= j < pairs@.len() ==> data_ok(#[trigger] pairs_model(pairs@)[j].0, names_of(map@)) && data_ok(
                pairs_model(pairs@)[j].1,
                names_of(map@),
            )) && b == pairs_bytes(pairs_model(pairs@), names_of(map@)).len() && z == pairs_size(
            pairs_model(pairs@),
            names_of(map@),
        ),
        r is None ==> !(forall|j: int|
            0 <= j < pairs@.len() ==> data_ok(#[trigger] pairs_model(pairs@)[j].0, names_of(map@)) && data_ok(
                pairs_model(pairs@)[j].1,
                names_of(map@),
            )) || pairs_size(pairs_model(pairs@), names_of(map@)) > usize::MAX,
    decreases pairs,
{
    let ghost m = names_of(map@);
    let ghost model = pairs_model(pairs@);
    let n = pairs.len();
    let mut b: usize = 0;
    let mut z: usize = 0;
    assert(model.subrange(0, 0) =~= Seq::<(DataModel, DataModel)>::empty());
    let mut i: usize = 0;
    while i < n
        invariant
            i <= n,
            n == pairs@.len(),
            model == pairs_model(pairs@),
            m == names_of(map@),
            forall|j: int| 0 <= j < i ==> data_ok(#[trigger] model[j].0, m) && data_ok(model[j].1, m),
            b == pairs_bytes(model.subrange(0, i as int), m).len(),
            z == pairs_size(model.subrange(0, i as int), m),
        decreases n - i,
    {
        assert(decreases_to!(pairs => pairs@[i as int]));
        assert(decreases_to!(pairs@[i as int] => pairs@[i as int].0));
        assert(decreases_to!(pairs@[i as int] => pairs@[i as int].1));
        assert(model[i as int] == (pairs@[i as int].0@, pairs@[i as int].1@));
        let (kb, kz) = match data_measure(&pairs[i].0, map) {
            Some(x) => x,
            None => {
                assert(!(data_ok(model[i as int].0, m) && data_ok(model[i as int].1, m)));
                return None;
            },
        };
        let (vb, vz) = match data_measure(&pairs[i].1, map) {
            Some(x) => x,
            None => {
                assert(!(data_ok(model[i as int].0, m) && data_ok(model[i as int].1, m)));
                return None;
            },
        };
        proof {
            lemma_bytes_le_size(model[i as int].0, m);
            lemma_bytes_le_size(model[i as int].1, m);
        }
        assert(data_ok(model[i as int].0, m) && data_ok(model[i as int].1, m));
        assert(forall|j: int| 0 <= j < i + 1 ==> data_ok(#[trigger] model[j].0, m) && data_ok(model[j].1, m));
        proof {
            let t = model.subrange(0, i + 1);
            assert(t.subrange(0, t.len() - 1) =~= model.subrange(0, i as int));
            assert(t[t.len() - 1] == model[i as int]);
            lemma_pairs_size_prefix(model, m, i + 1);
            lemma_pairs_le(model.subrange(0, i as int), m);
        }
        if z > usize::MAX - kz || z + kz > usize::MAX - vz {
            return None;
        }
        b = b + kb + vb;
        z = z + kz + vz;
        i = i + 1;
    }
    assert(model.subrange(0, n as int) =~= model);
    Some((b, z))
}

/// The total bytes of items that can all be written.
fn items_measure(items: &Vec<UObjectPropertyData>, map: &[String]) -> (r: Option<usize>)
    ensures
        r matches Some(b) ==> (forall|j: int| 0 <= j < items@.len() ==> data_ok(#[trigger] items_model(items@)[j], names_of(map@)))
            && b == items_bytes(items_model(items@), names_of(map@)).len(),
        r is None ==> !(forall|j: int| 0 <= j < items@.len() ==> data_ok(#[trigger] items_model(items@)[j], names_of(map@)))
            || items_bytes(items_model(items@), names_of(map@)).len() > usize::MAX,
    decreases items,
{
    let ghost m = names_of(map@);
    let ghost model = items_model(items@);
    let n = items.len();
    let mut total: usize = 0;
    assert(model.subrange(0, 0) =~= Seq::<DataModel>::empty());
    for i in 0..n
        invariant
            n == items@.len(),
            model == items_model(items@),
            m == names_of(map@),
            forall|j: int| 0 <= j < i ==> data_ok(#[trigger] model[j], m),
            total == items_bytes(model.subrange(0, i as int), m).len(),
    {
        assert(decreases_to!(items => items@[i as int]));
        let (b, _) = match data_measure(&items[i], map) {
            Some(x) => x,
            None => {
                assert(!data_ok(model[i as int], m));
                return None;
            },
        };
        proof {
            let t = model.subrange(0, i + 1);
            assert(t.subrange(0, t.len() - 1) =~= model.subrange(0, i as int));
            assert(t[t.len() - 1] == model[i as int]);
            lemma_items_prefix(model, m, i + 1);
        }
        if total > usize::MAX - b {
            return None;
        }
        total = total + b;
    }
    assert(model.subrange(0, n as int) =~= model);
    Some(total)
}

proof fn lemma_items_prefix(items: Seq<DataModel>, map: Seq<Seq<char>>, k: int)
    requires
        0 <= k <= items.len(),
    ensures
        items_bytes(items.subrange(0, k), map).len() <= items_bytes(items, map).len(),
    decreases items.len() - k,
{
    if k < items.len() {
        lemma_items_prefix(items, map, k + 1);
        let t = items.subrange(0, k + 1);
        assert(t.subrange(0, t.len() - 1) =~= items.subrange(0, k));
    } else {
        assert(items.subrange(0, k) =~= items);
    }
}

impl IoUObject {
    /// Whether the object can be written as bytes: see `object_ok`.
    pub fn can_write_bytes(&self) -> (b: bool)
        ensures
            b == object_ok(self@),
    {
        let map = self.summary.name_map.as_slice();
        let ghost m = names_of(map@);
        proof {
            lemma_le();
        }
        if self.summary.name_map_type.len() < self.summary.name_map.len() {
            return false;
        }
        if !has_name(map, "None") {
            return false;
        }
        let pb = match props_measure(&self.properties, map) {
            Some((pb, _)) => pb,
            None => {
                return false;
            },
        };
        let sb = self.summary.to_bytes().len();
        assert(self@.properties == properties_model(self.properties@));
        if sb > usize::MAX - 12 || pb > usize::MAX - 12 - sb {
            return false;
        }
        true
    }
}

} // verus!
