//! The values that a package holds, and their mathematical models.

use crate::text_codec::str_eq;
use vstd::prelude::*;

verus! {

/// How a name of the name map is encoded.
#[derive(Clone, Copy, PartialEq, Eq, Structural, Debug)]
pub enum StringType {
    Utf8,
    Utf16,
}

/// The fixed-size header at the start of a package summary.
#[derive(Clone, Copy, PartialEq, Eq, Structural, Debug)]
pub struct UObjectSummaryHeader {
    pub name: u64,
    pub source_name: u64,
    pub package_flags: u32,
    pub cooked_header_size: u32,
    pub name_map_names_offset: i32,
    pub name_map_names_size: i32,
    pub name_map_hashes_offset: i32,
    pub name_map_hashes_size: i32,
    pub import_map_offset: i32,
    pub export_map_offset: i32,
    pub export_bundles_offset: i32,
    pub graph_data_offset: i32,
    pub graph_data_size: i32,
    pub pad: i32,
}

/// The package summary: header, name map, and the bytes up to the end of
/// the graph data, kept as they are.
#[derive(Debug)]
pub struct UObjectSummary {
    pub header: UObjectSummaryHeader,
    pub name_map: Vec<String>,
    pub name_map_type: Vec<StringType>,
    pub remaining_bytes: Vec<u8>,
}

/// The tag of a property: its name, its type name, and its array index.
#[derive(PartialEq, Debug)]
pub struct UObjectPropertyHeader {
    pub name: String,
    pub prop_type: String,
    pub arr_index: usize,
}

/// A property: tag, type-specific metadata, and value.
#[derive(PartialEq, Debug)]
pub struct UObjectProperty {
    pub header: UObjectPropertyHeader,
    pub metadata: UObjectPropertyMetadata,
    pub data: UObjectPropertyData,
}

/// What follows a property's tag before its value.
#[derive(PartialEq, Debug)]
pub enum UObjectPropertyMetadata {
    /// The item type of an array.
    Array(String),
    /// The value of a boolean property.
    Bool(bool),
    /// The enum name index and an extra byte of a byte property.
    Byte(u64, u8),
    /// The enum type of an enum property.
    Enum(String),
    /// The key and value types of a map.
    MapTypes(String, String),
    /// The 25 raw bytes that precede a struct's fields.
    Struct(Vec<u8>),
    /// A single padding byte.
    Empty,
}

/// The value of a property.
#[derive(PartialEq, Debug)]
pub enum UObjectPropertyData {
    /// Items, and for arrays of structs the item schema and array name.
    Array(Vec<UObjectPropertyData>, Option<(UObjectPropertyHeader, String)>),
    Bool,
    Byte(u8),
    Enum(String),
    /// Nested properties, or raw bytes when the content is not a property list.
    Struct(Vec<UObjectProperty>, Vec<u8>),
    /// A 32-bit float, held as its IEEE-754 bit pattern.
    Float(u32),
    String(String),
    StringUtf16(String),
    MapEntries(Vec<(UObjectPropertyData, UObjectPropertyData)>),
    Name(String),
    UInt16(u16),
    UInt32(u32),
    Int8(i8),
    Int16(i16),
    Int32(i32),
}

/// A package object: summary and top-level properties.
#[derive(Debug)]
pub struct IoUObject {
    pub summary: UObjectSummary,
    pub properties: Vec<UObjectProperty>,
}

/// Model of a property tag.
pub struct HeaderModel {
    pub name: Seq<char>,
    pub prop_type: Seq<char>,
    pub arr_index: usize,
}

/// Model of property metadata.
pub enum MetadataModel {
    Array(Seq<char>),
    Bool(bool),
    Byte(u64, u8),
    Enum(Seq<char>),
    MapTypes(Seq<char>, Seq<char>),
    Struct(Seq<u8>),
    Empty,
}

/// Model of a property value.
pub enum DataModel {
    Array(Seq<DataModel>, Option<(HeaderModel, Seq<char>)>),
    Bool,
    Byte(u8),
    Enum(Seq<char>),
    Struct(Seq<PropertyModel>, Seq<u8>),
    Float(u32),
    String(Seq<char>),
    StringUtf16(Seq<char>),
    MapEntries(Seq<(DataModel, DataModel)>),
    Name(Seq<char>),
    UInt16(u16),
    UInt32(u32),
    Int8(i8),
    Int16(i16),
    Int32(i32),
}

/// Model of a property.
pub struct PropertyModel {
    pub header: HeaderModel,
    pub metadata: MetadataModel,
    pub data: DataModel,
}

/// Model of a summary.
pub struct SummaryModel {
    pub header: UObjectSummaryHeader,
    pub name_map: Seq<Seq<char>>,
    pub name_map_type: Seq<StringType>,
    pub remaining_bytes: Seq<u8>,
}

/// Model of a package object.
pub struct ObjectModel {
    pub summary: SummaryModel,
    pub properties: Seq<PropertyModel>,
}

pub open spec fn header_model(h: &UObjectPropertyHeader) -> HeaderModel {
    HeaderModel { name: h.name@, prop_type: h.prop_type@, arr_index: h.arr_index }
}

pub open spec fn metadata_model(m: &UObjectPropertyMetadata) -> MetadataModel {
    match m {
        UObjectPropertyMetadata::Array(t) => MetadataModel::Array(t@),
        UObjectPropertyMetadata::Bool(b) => MetadataModel::Bool(*b),
        UObjectPropertyMetadata::Byte(e, v) => MetadataModel::Byte(*e, *v),
        UObjectPropertyMetadata::Enum(t) => MetadataModel::Enum(t@),
        UObjectPropertyMetadata::MapTypes(k, v) => MetadataModel::MapTypes(k@, v@),
        UObjectPropertyMetadata::Struct(d) => MetadataModel::Struct(d@),
        UObjectPropertyMetadata::Empty => MetadataModel::Empty,
    }
}

pub open spec fn data_model(d: &UObjectPropertyData) -> DataModel
    decreases d,
{
    match d {
        UObjectPropertyData::Array(items, schema) => DataModel::Array(
            Seq::new(
                items@.len(),
                |i: int|
                    if 0 <= i < items@.len() {
                        data_model(&items@[i])
                    } else {
                        DataModel::Bool
                    },
            ),
            match schema {
                Some((h, n)) => Some((header_model(h), n@)),
                None => None,
            },
        ),
        UObjectPropertyData::Bool => DataModel::Bool,
        UObjectPropertyData::Byte(v) => DataModel::Byte(*v),
        UObjectPropertyData::Enum(s) => DataModel::Enum(s@),
        UObjectPropertyData::Struct(props, raw) => DataModel::Struct(
            Seq::new(
                props@.len(),
                |i: int|
                    if 0 <= i < props@.len() {
                        property_model(&props@[i])
                    } else {
                        PropertyModel {
                            header: HeaderModel {
                                name: Seq::empty(),
                                prop_type: Seq::empty(),
                                arr_index: 0,
                            },
                            metadata: MetadataModel::Empty,
                            data: DataModel::Bool,
                        }
                    },
            ),
            raw@,
        ),
        UObjectPropertyData::Float(b) => DataModel::Float(*b),
        UObjectPropertyData::String(s) => DataModel::String(s@),
        UObjectPropertyData::StringUtf16(s) => DataModel::StringUtf16(s@),
        UObjectPropertyData::MapEntries(pairs) => DataModel::MapEntries(
            Seq::new(
                pairs@.len(),
                |i: int|
                    if 0 <= i < pairs@.len() {
                        (data_model(&pairs@[i].0), data_model(&pairs@[i].1))
                    } else {
                        (DataModel::Bool, DataModel::Bool)
                    },
            ),
        ),
        UObjectPropertyData::Name(s) => DataModel::Name(s@),
        UObjectPropertyData::UInt16(v) => DataModel::UInt16(*v),
        UObjectPropertyData::UInt32(v) => DataModel::UInt32(*v),
        UObjectPropertyData::Int8(v) => DataModel::Int8(*v),
        UObjectPropertyData::Int16(v) => DataModel::Int16(*v),
        UObjectPropertyData::Int32(v) => DataModel::Int32(*v),
    }
}

pub open spec fn property_model(p: &UObjectProperty) -> PropertyModel
    decreases p,
{
    PropertyModel {
        header: header_model(&p.header),
        metadata: metadata_model(&p.metadata),
        data: data_model(&p.data),
    }
}

pub open spec fn properties_model(props: Seq<UObjectProperty>) -> Seq<PropertyModel> {
    Seq::new(props.len(), |i: int| property_model(&props[i]))
}

pub open spec fn summary_model(s: &UObjectSummary) -> SummaryModel {
    SummaryModel {
        header: s.header,
        name_map: crate::names::names_of(s.name_map@),
        name_map_type: s.name_map_type@,
        remaining_bytes: s.remaining_bytes@,
    }
}

impl View for UObjectSummaryHeader {
    type V = UObjectSummaryHeader;

    open spec fn view(&self) -> UObjectSummaryHeader {
        *self
    }
}

impl View for UObjectPropertyHeader {
    type V = HeaderModel;

    open spec fn view(&self) -> HeaderModel {
        header_model(self)
    }
}

impl View for UObjectPropertyMetadata {
    type V = MetadataModel;

    open spec fn view(&self) -> MetadataModel {
        metadata_model(self)
    }
}

impl View for UObjectPropertyData {
    type V = DataModel;

    open spec fn view(&self) -> DataModel {
        data_model(self)
    }
}

impl View for UObjectProperty {
    type V = PropertyModel;

    open spec fn view(&self) -> PropertyModel {
        property_model(self)
    }
}

impl View for UObjectSummary {
    type V = SummaryModel;

    open spec fn view(&self) -> SummaryModel {
        summary_model(self)
    }
}

impl View for IoUObject {
    type V = ObjectModel;

    open spec fn view(&self) -> ObjectModel {
        ObjectModel {
            summary: summary_model(&self.summary),
            properties: properties_model(self.properties@),
        }
    }
}

/// The property types that the format tells apart, by type name.
#[derive(Clone, Copy, PartialEq, Eq, Structural, Debug)]
pub enum PropertyKind {
    ArrayProperty,
    BoolProperty,
    ByteProperty,
    EnumProperty,
    StructProperty,
    FloatProperty,
    StrProperty,
    MapProperty,
    NameProperty,
    UInt16Property,
    UInt32Property,
    Int8Property,
    Int16Property,
    IntProperty,
    Other,
}

/// The kind that a type name denotes.
pub open spec fn kind_of(t: Seq<char>) -> PropertyKind {
    if t == "ArrayProperty"@ {
        PropertyKind::ArrayProperty
    } else if t == "BoolProperty"@ {
        PropertyKind::BoolProperty
    } else if t == "ByteProperty"@ {
        PropertyKind::ByteProperty
    } else if t == "EnumProperty"@ {
        PropertyKind::EnumProperty
    } else if t == "StructProperty"@ {
        PropertyKind::StructProperty
    } else if t == "FloatProperty"@ {
        PropertyKind::FloatProperty
    } else if t == "StrProperty"@ {
        PropertyKind::StrProperty
    } else if t == "MapProperty"@ {
        PropertyKind::MapProperty
    } else if t == "NameProperty"@ {
        PropertyKind::NameProperty
    } else if t == "UInt16Property"@ {
        PropertyKind::UInt16Property
    } else if t == "UInt32Property"@ {
        PropertyKind::UInt32Property
    } else if t == "Int8Property"@ {
        PropertyKind::Int8Property
    } else if t == "Int16Property"@ {
        PropertyKind::Int16Property
    } else if t == "IntProperty"@ {
        PropertyKind::IntProperty
    } else {
        PropertyKind::Other
    }
}

/// The kind of a type name.
pub fn property_kind(t: &str) -> (k: PropertyKind)
    ensures
        k == kind_of(t@),
{
    if str_eq(t, "ArrayProperty") {
        PropertyKind::ArrayProperty
    } else if str_eq(t, "BoolProperty") {
        PropertyKind::BoolProperty
    } else if str_eq(t, "ByteProperty") {
        PropertyKind::ByteProperty
    } else if str_eq(t, "EnumProperty") {
        PropertyKind::EnumProperty
    } else if str_eq(t, "StructProperty") {
        PropertyKind::StructProperty
    } else if str_eq(t, "FloatProperty") {
        PropertyKind::FloatProperty
    } else if str_eq(t, "StrProperty") {
        PropertyKind::StrProperty
    } else if str_eq(t, "MapProperty") {
        PropertyKind::MapProperty
    } else if str_eq(t, "NameProperty") {
        PropertyKind::NameProperty
    } else if str_eq(t, "UInt16Property") {
        PropertyKind::UInt16Property
    } else if str_eq(t, "UInt32Property") {
        PropertyKind::UInt32Property
    } else if str_eq(t, "Int8Property") {
        PropertyKind::Int8Property
    } else if str_eq(t, "Int16Property") {
        PropertyKind::Int16Property
    } else if str_eq(t, "IntProperty") {
        PropertyKind::IntProperty
    } else {
        PropertyKind::Other
    }
}

/// The type name of each value variant, as the format stores it.
pub open spec fn spec_type_name(d: DataModel) -> Seq<char> {
    match d {
        DataModel::Array(..) => "ArrayProperty"@,
        DataModel::Bool => "BoolProperty"@,
        DataModel::Byte(..) => "ByteProperty"@,
        DataModel::Enum(..) => "EnumProperty"@,
        DataModel::Struct(..) => "StructProperty"@,
        DataModel::Float(..) => "FloatProperty"@,
        DataModel::String(..) => "StrProperty"@,
        DataModel::StringUtf16(..) => "StrProperty"@,
        DataModel::MapEntries(..) => "MapProperty"@,
        DataModel::Name(..) => "NameProperty"@,
        DataModel::UInt16(..) => "UInt16Property"@,
        DataModel::UInt32(..) => "UInt32Property"@,
        DataModel::Int8(..) => "Int8Property"@,
        DataModel::Int16(..) => "Int16Property"@,
        DataModel::Int32(..) => "IntProperty"@,
    }
}

impl UObjectPropertyData {
    /// The type name under which this value is stored.
    pub fn get_string_type(&self) -> (s: &'static str)
        ensures
            s@ == spec_type_name(self@),
    {
        match self {
            UObjectPropertyData::Array(_, _) => "ArrayProperty",
            UObjectPropertyData::Bool => "BoolProperty",
            UObjectPropertyData::Byte(_) => "ByteProperty",
            UObjectPropertyData::Enum(_) => "EnumProperty",
            UObjectPropertyData::Struct(_, _) => "StructProperty",
            UObjectPropertyData::Float(_) => "FloatProperty",
            UObjectPropertyData::String(_) => "StrProperty",
            UObjectPropertyData::StringUtf16(_) => "StrProperty",
            UObjectPropertyData::MapEntries(_) => "MapProperty",
            UObjectPropertyData::Name(_) => "NameProperty",
            UObjectPropertyData::UInt16(_) => "UInt16Property",
            UObjectPropertyData::UInt32(_) => "UInt32Property",
            UObjectPropertyData::Int8(_) => "Int8Property",
            UObjectPropertyData::Int16(_) => "Int16Property",
            UObjectPropertyData::Int32(_) => "IntProperty",
        }
    }
}

impl UObjectPropertyHeader {
    /// The size of a complete property tag: name and type indices, data
    /// size and array index.
    pub fn byte_len() -> (n: usize)
        ensures
            n == 24,
    {
        8 + 8 + 4 + 4
    }
}

} // verus!
