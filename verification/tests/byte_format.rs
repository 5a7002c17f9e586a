use iostore_uasset::{
    IoUObject, StringType, UObjectProperty, UObjectPropertyData, UObjectPropertyHeader,
    UObjectPropertyMetadata, UObjectSummary, UObjectSummaryHeader, UassetError,
};

fn get_test_object_summary() -> UObjectSummary {
    let summary_header = UObjectSummaryHeader {
        name: 1,
        source_name: 5,
        package_flags: 0,
        cooked_header_size: 0x40,
        name_map_names_offset: 0x40,
        name_map_names_size: 0x10,
        name_map_hashes_offset: 0x50,
        name_map_hashes_size: 0x98,
        import_map_offset: 0x130,
        export_bundles_offset: 0x140,
        export_map_offset: 0x150,
        graph_data_offset: 0x12c,
        graph_data_size: 0x04,
        pad: 0,
    };
    let names = [
        "None",
        "ArrayProperty",
        "TestArray",
        "BoolProperty",
        "TestBool",
        "ByteProperty",
        "TestByte",
        "IntProperty",
        "TestInt",
        "FloatProperty",
        "TestFloat",
        "MapProperty",
        "TestMap",
        "StrProperty",
        "TestString",
        "StructProperty",
        "TestStruct",
        "SomeUtf16Property",
    ];
    let mut name_map_type = vec![StringType::Utf8; 17];
    name_map_type.push(StringType::Utf16);
    UObjectSummary {
        header: summary_header,
        name_map: names.iter().map(|s| s.to_string()).collect(),
        name_map_type,
        remaining_bytes: vec![0; 0],
    }
}

fn prop(name: &str, data: UObjectPropertyData, metadata: UObjectPropertyMetadata) -> UObjectProperty {
    UObjectProperty {
        header: UObjectPropertyHeader {
            name: name.to_string(),
            arr_index: 0,
            prop_type: data.get_string_type().to_owned(),
        },
        metadata,
        data,
    }
}

fn mkbool(value: bool) -> UObjectProperty {
    prop("TestBool", UObjectPropertyData::Bool, UObjectPropertyMetadata::Bool(value))
}

fn mkbyte(enum_type: u64, value: u8) -> UObjectProperty {
    prop("TestByte", UObjectPropertyData::Byte(value), UObjectPropertyMetadata::Byte(enum_type, 0))
}

fn mkint(value: i32) -> UObjectProperty {
    prop("TestInt", UObjectPropertyData::Int32(value), UObjectPropertyMetadata::Empty)
}

fn mkfloat(value: f32) -> UObjectProperty {
    prop("TestFloat", UObjectPropertyData::Float(value.to_bits()), UObjectPropertyMetadata::Empty)
}

fn mkstr(value: &str) -> UObjectProperty {
    prop("TestString", UObjectPropertyData::String(value.to_string()), UObjectPropertyMetadata::Empty)
}

fn mkstr16(value: &str) -> UObjectProperty {
    prop("TestString", UObjectPropertyData::StringUtf16(value.to_string()), UObjectPropertyMetadata::Empty)
}

fn map_prop(meta: (&str, &str), entries: Vec<(UObjectPropertyData, UObjectPropertyData)>) -> UObjectProperty {
    UObjectProperty {
        header: UObjectPropertyHeader {
            name: "TestMap".to_string(),
            arr_index: 0,
            prop_type: "MapProperty".to_string(),
        },
        metadata: UObjectPropertyMetadata::MapTypes(meta.0.to_string(), meta.1.to_string()),
        data: UObjectPropertyData::MapEntries(entries),
    }
}

fn get_test_object() -> IoUObject {
    IoUObject {
        summary: get_test_object_summary(),
        properties: vec![
            mkbool(true),
            mkbyte(25, 0),
            mkint(77),
            mkfloat(192f32),
            mkstr("TEEESTString"),
            map_prop(
                ("IntProperty", "StructProperty"),
                vec![
                    (
                        UObjectPropertyData::Int32(0),
                        UObjectPropertyData::Struct(vec![mkint(0), mkint(1), mkint(2), mkfloat(3f32)], vec![]),
                    ),
                    (
                        UObjectPropertyData::Int32(1),
                        UObjectPropertyData::Struct(
                            vec![mkbool(true), mkbool(false), mkbyte(7, 7), mkstr("MoreTesting")],
                            vec![],
                        ),
                    ),
                    (
                        UObjectPropertyData::Int32(2),
                        UObjectPropertyData::Struct(
                            vec![map_prop(
                                ("StrProperty", "IntProperty"),
                                vec![
                                    (UObjectPropertyData::String("Prop1".to_string()), UObjectPropertyData::Int32(5)),
                                    (UObjectPropertyData::String("TestProp2".to_string()), UObjectPropertyData::Int32(7)),
                                ],
                            )],
                            vec![],
                        ),
                    ),
                    (
                        UObjectPropertyData::Int32(30),
                        UObjectPropertyData::Struct(vec![mkstr("SkipMapKeys")], vec![]),
                    ),
                    (
                        UObjectPropertyData::Int32(2),
                        UObjectPropertyData::Struct(
                            vec![map_prop(
                                ("StrProperty", "StructProperty"),
                                vec![
                                    (
                                        UObjectPropertyData::String("Prop1".to_string()),
                                        UObjectPropertyData::Struct(vec![mkstr("NestedStruct"), mkfloat(77f32)], vec![]),
                                    ),
                                    (
                                        UObjectPropertyData::String("TestProp2".to_string()),
                                        UObjectPropertyData::Struct(
                                            vec![mkbyte(25, 6), mkstr("TestEndMapOnNestedStruct")],
                                            vec![],
                                        ),
                                    ),
                                ],
                            )],
                            vec![],
                        ),
                    ),
                ],
            ),
            mkfloat(999f32),
            mkstr("End of the object"),
        ],
    }
}

fn assert_equality(a: &IoUObject, b: &IoUObject) {
    assert_eq!(a.summary.header, b.summary.header);
    assert_eq!(a.summary.name_map, b.summary.name_map);
    assert_eq!(a.summary.remaining_bytes, b.summary.remaining_bytes);
    assert_eq!(a.properties.len(), b.properties.len());
    for i in 0..a.properties.len() {
        assert_eq!(a.properties[i].header.name, b.properties[i].header.name);
        assert_eq!(a.properties[i].header.arr_index, b.properties[i].header.arr_index);
        assert_eq!(a.properties[i].data, b.properties[i].data);
    }
}

fn bytes_of(o: &IoUObject) -> Vec<u8> {
    let mut out = vec![];
    let n = o.to_bytes(&mut out);
    assert_eq!(n, out.len());
    out
}

fn verify_bytes_roundtrip(test: IoUObject) {
    let bytes = bytes_of(&test);
    match IoUObject::from_buffer(&bytes) {
        Ok(deserialized) => assert_equality(&deserialized, &test),
        Err(err) => panic!("{:?}", err),
    }
}

#[test]
fn byte_serialization_is_consistent() {
    verify_bytes_roundtrip(get_test_object());
}




#[test]
fn summary_is_graph_data_end_long() {
    let s = get_test_object_summary();
    let bytes = s.to_bytes();
    assert_eq!(bytes.len(), 0x130);
    // the UTF-16 entry is aligned to an even offset: one padding byte before it
    assert_eq!(&bytes[267..270], &[0x80 | 0, 17, 0]);
}

#[test]
fn header_byte_len_is_24() {
    assert_eq!(UObjectPropertyHeader::byte_len(), 24);
}

#[test]
fn int_property_exact_bytes() {
    let map: Vec<String> = ["None", "TestInt", "IntProperty"].iter().map(|s| s.to_string()).collect();
    let p = UObjectProperty {
        header: UObjectPropertyHeader { name: "TestInt".into(), prop_type: "IntProperty".into(), arr_index: 3 },
        metadata: UObjectPropertyMetadata::Empty,
        data: UObjectPropertyData::Int32(-2),
    };
    let mut out = vec![];
    let n = p.to_bytes(&mut out, &map);
    assert_eq!(n, 24 + 1 + 4);
    assert_eq!(
        out,
        vec![1, 0, 0, 0, 0, 0, 0, 0, 2, 0, 0, 0, 0, 0, 0, 0, 4, 0, 0, 0, 3, 0, 0, 0, 0, 0xfe, 0xff, 0xff, 0xff]
    );
    let (back, pos) = UObjectProperty::from_buffer(&out, 0, &map).unwrap();
    assert_eq!(pos, out.len());
    assert_eq!(back, Some(p));
}

#[test]
fn none_header_ends_a_list() {
    let map: Vec<String> = ["None", "X"].iter().map(|s| s.to_string()).collect();
    let bytes = [0u8, 0, 0, 0, 0, 0, 0, 0];
    assert_eq!(UObjectPropertyHeader::from_buffer(&bytes, 0, &map), Ok((None, 8)));
    assert_eq!(UObjectProperty::from_buffer(&bytes, 0, &map), Ok((None, 8)));
}

#[test]
fn map_reports_four_more_bytes_than_written() {
    let map: Vec<String> = ["None", "IntProperty"].iter().map(|s| s.to_string()).collect();
    let d = UObjectPropertyData::MapEntries(vec![(UObjectPropertyData::Int32(1), UObjectPropertyData::Int32(2))]);
    let mut out = vec![];
    let n = d.to_bytes(&mut out, &map);
    assert_eq!(out.len(), 4 + 4 + 4);
    assert_eq!(n, 8 + 4 + 4);
}

#[test]
fn string_value_layout() {
    let map: Vec<String> = vec!["None".to_string()];
    let mut out = vec![];
    let n = UObjectPropertyData::String("ab".to_string()).to_bytes(&mut out, &map);
    assert_eq!(out, vec![3, 0, 0, 0, b'a', b'b', 0]);
    assert_eq!(n, 7);
    let mut out = vec![];
    let n = UObjectPropertyData::StringUtf16("ż".to_string()).to_bytes(&mut out, &map);
    assert_eq!(out, vec![0xfe, 0xff, 0xff, 0xff, 0x7c, 0x01, 0, 0]);
    assert_eq!(n, 8);
    let mut out = vec![];
    assert_eq!(UObjectPropertyData::String(String::new()).to_bytes(&mut out, &map), 4);
    assert_eq!(out, vec![0, 0, 0, 0]);
}

fn str_meta() -> UObjectPropertyMetadata {
    UObjectPropertyMetadata::Empty
}

#[test]
fn string_errors() {
    let map: Vec<String> = vec!["None".to_string()];
    // terminator missing
    let bytes = [2u8, 0, 0, 0, b'a', 1];
    assert_eq!(
        UObjectPropertyData::from_buffer(&bytes, 0, "StrProperty", &str_meta(), &map, 0),
        Err(UassetError::MalformedString)
    );
    // invalid UTF-8
    let bytes = [2u8, 0, 0, 0, 0xff, 0];
    assert_eq!(
        UObjectPropertyData::from_buffer(&bytes, 0, "StrProperty", &str_meta(), &map, 0),
        Err(UassetError::InvalidUtf8)
    );
    // lone surrogate
    let bytes = [0xfe, 0xff, 0xff, 0xff, 0x00, 0xd8, 0, 0];
    assert_eq!(
        UObjectPropertyData::from_buffer(&bytes, 0, "StrProperty", &str_meta(), &map, 0),
        Err(UassetError::InvalidUtf16)
    );
    // i32::MIN length
    let bytes = [0, 0, 0, 0x80];
    assert_eq!(
        UObjectPropertyData::from_buffer(&bytes, 0, "StrProperty", &str_meta(), &map, 0),
        Err(UassetError::InvalidStringLength)
    );
    // truncated
    let bytes = [5u8, 0, 0, 0, b'a'];
    assert_eq!(
        UObjectPropertyData::from_buffer(&bytes, 0, "StrProperty", &str_meta(), &map, 0),
        Err(UassetError::UnexpectedEnd)
    );
}

#[test]
fn name_index_out_of_range() {
    let map: Vec<String> = vec!["None".to_string()];
    let bytes = [5u8, 0, 0, 0, 0, 0, 0, 0];
    assert_eq!(
        UObjectPropertyData::from_buffer(&bytes, 0, "NameProperty", &str_meta(), &map, 0),
        Err(UassetError::NameIndexOutOfRange)
    );
}

#[test]
fn metadata_mismatch() {
    let map: Vec<String> = vec!["None".to_string()];
    let bytes = [0u8, 0, 0, 0];
    assert_eq!(
        UObjectPropertyData::from_buffer(&bytes, 0, "ArrayProperty", &str_meta(), &map, 0),
        Err(UassetError::MetadataMismatch)
    );
    assert_eq!(
        UObjectPropertyData::from_buffer(&bytes, 0, "MapProperty", &str_meta(), &map, 0),
        Err(UassetError::MetadataMismatch)
    );
}

#[test]
fn array_of_structs_errors() {
    let map: Vec<String> = ["None", "StructProperty", "S"].iter().map(|s| s.to_string()).collect();
    let meta = UObjectPropertyMetadata::Array("StructProperty".to_string());
    // item schema is the None marker
    let mut bytes = vec![1u8, 0, 0, 0];
    bytes.extend_from_slice(&[0u8; 8]);
    assert_eq!(
        UObjectPropertyData::from_buffer(&bytes, 0, "ArrayProperty", &meta, &map, 0),
        Err(UassetError::MissingArrayItemSchema)
    );
    // schema, array name, non-zero padding
    let mut bytes = vec![0u8, 0, 0, 0];
    bytes.extend_from_slice(&[2, 0, 0, 0, 0, 0, 0, 0, 1, 0, 0, 0, 0, 0, 0, 0, 0, 0, 0, 0, 0, 0, 0, 0]);
    bytes.extend_from_slice(&[2, 0, 0, 0, 0, 0, 0, 0]);
    let mut pad = [0u8; 17];
    pad[16] = 1;
    bytes.extend_from_slice(&pad);
    assert_eq!(
        UObjectPropertyData::from_buffer(&bytes, 0, "ArrayProperty", &meta, &map, 0),
        Err(UassetError::NonZeroArrayPadding)
    );
}

#[test]
fn summary_errors() {
    let mut bytes = get_test_object_summary().to_bytes();
    // hash table smaller than one slot
    let mut small = bytes.clone();
    small[36..40].copy_from_slice(&4i32.to_le_bytes());
    assert_eq!(UObjectSummary::from_buffer(&small, 0).err(), Some(UassetError::InvalidNameCount));
    // graph data ends before the name map
    let mut early = bytes.clone();
    early[52..56].copy_from_slice(&0i32.to_le_bytes());
    early[56..60].copy_from_slice(&0i32.to_le_bytes());
    assert_eq!(UObjectSummary::from_buffer(&early, 0).err(), Some(UassetError::InvalidGraphDataEnd));
    // truncated
    bytes.truncate(40);
    assert_eq!(UObjectSummary::from_buffer(&bytes, 0).err(), Some(UassetError::UnexpectedEnd));
}

#[test]
fn raw_struct_and_unknown_types_keep_their_bytes() {
    let map: Vec<String> = ["None", "X"].iter().map(|s| s.to_string()).collect();
    let raw = vec![0u8, 0, 0, 0, 0, 0, 0, 0, 9, 9];
    let (d, p) = UObjectPropertyData::from_buffer(&raw, 0, "StructProperty", &str_meta(), &map, raw.len()).unwrap();
    assert_eq!(p, raw.len());
    assert_eq!(d, UObjectPropertyData::Struct(vec![], raw.clone()));
    let (d, p) = UObjectPropertyData::from_buffer(&raw, 0, "SoftObjectProperty", &str_meta(), &map, 3).unwrap();
    assert_eq!(p, 3);
    assert_eq!(d, UObjectPropertyData::Struct(vec![], vec![0, 0, 0]));
}

#[test]
fn get_string_type_names() {
    assert_eq!(UObjectPropertyData::Int32(0).get_string_type(), "IntProperty");
    assert_eq!(UObjectPropertyData::StringUtf16(String::new()).get_string_type(), "StrProperty");
    assert_eq!(UObjectPropertyData::MapEntries(vec![]).get_string_type(), "MapProperty");
}
