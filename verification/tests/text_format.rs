use iostore_uasset::{
    float_candidates, IoUObject, TextError, TextPiece, StringType, UObjectProperty, UObjectPropertyData, UObjectPropertyHeader,
    UObjectPropertyMetadata, UObjectSummary, UObjectSummaryHeader,
};

fn get_test_object_summary() -> UObjectSummary {
    let summary_header = UObjectSummaryHeader {
        name: 1,
        source_name: 5,
        package_flags: 0,
        cooked_header_size: 0x40,
        name_map_names_offset: 0x40,
        name_map_names_size: 0x10,
        name_map_hashes_offset: 0x50,
        name_map_hashes_size: 0x98,
        import_map_offset: 0x130,
        export_bundles_offset: 0x140,
        export_map_offset: 0x150,
        graph_data_offset: 0x12c,
        graph_data_size: 0x04,
        pad: 0,
    };
    let names = [
        "None",
        "ArrayProperty",
        "TestArray",
        "BoolProperty",
        "TestBool",
        "ByteProperty",
        "TestByte",
        "IntProperty",
        "TestInt",
        "FloatProperty",
        "TestFloat",
        "MapProperty",
        "TestMap",
        "StrProperty",
        "TestString",
        "StructProperty",
        "TestStruct",
        "SomeUtf16Property",
    ];
    let mut name_map_type = vec![StringType::Utf8; 17];
    name_map_type.push(StringType::Utf16);
    UObjectSummary {
        header: summary_header,
        name_map: names.iter().map(|s| s.to_string()).collect(),
        name_map_type,
        remaining_bytes: vec![0; 0],
    }
}

fn prop(name: &str, data: UObjectPropertyData, metadata: UObjectPropertyMetadata) -> UObjectProperty {
    UObjectProperty {
        header: UObjectPropertyHeader {
            name: name.to_string(),
            arr_index: 0,
            prop_type: data.get_string_type().to_owned(),
        },
        metadata,
        data,
    }
}

fn mkbool(value: bool) -> UObjectProperty {
    prop("TestBool", UObjectPropertyData::Bool, UObjectPropertyMetadata::Bool(value))
}

fn mkbyte(enum_type: u64, value: u8) -> UObjectProperty {
    prop("TestByte", UObjectPropertyData::Byte(value), UObjectPropertyMetadata::Byte(enum_type, 0))
}

fn mkint(value: i32) -> UObjectProperty {
    prop("TestInt", UObjectPropertyData::Int32(value), UObjectPropertyMetadata::Empty)
}

fn mkfloat(value: f32) -> UObjectProperty {
    prop("TestFloat", UObjectPropertyData::Float(value.to_bits()), UObjectPropertyMetadata::Empty)
}

fn mkstr(value: &str) -> UObjectProperty {
    prop("TestString", UObjectPropertyData::String(value.to_string()), UObjectPropertyMetadata::Empty)
}

fn mkstr16(value: &str) -> UObjectProperty {
    prop("TestString", UObjectPropertyData::StringUtf16(value.to_string()), UObjectPropertyMetadata::Empty)
}

fn map_prop(meta: (&str, &str), entries: Vec<(UObjectPropertyData, UObjectPropertyData)>) -> UObjectProperty {
    UObjectProperty {
        header: UObjectPropertyHeader {
            name: "TestMap".to_string(),
            arr_index: 0,
            prop_type: "MapProperty".to_string(),
        },
        metadata: UObjectPropertyMetadata::MapTypes(meta.0.to_string(), meta.1.to_string()),
        data: UObjectPropertyData::MapEntries(entries),
    }
}

fn get_test_object() -> IoUObject {
    IoUObject {
        summary: get_test_object_summary(),
        properties: vec![
            mkbool(true),
            mkbyte(25, 0),
            mkint(77),
            mkfloat(192f32),
            mkstr("TEEESTString"),
            map_prop(
                ("IntProperty", "StructProperty"),
                vec![
                    (
                        UObjectPropertyData::Int32(0),
                        UObjectPropertyData::Struct(vec![mkint(0), mkint(1), mkint(2), mkfloat(3f32)], vec![]),
                    ),
                    (
                        UObjectPropertyData::Int32(1),
                        UObjectPropertyData::Struct(
                            vec![mkbool(true), mkbool(false), mkbyte(7, 7), mkstr("MoreTesting")],
                            vec![],
                        ),
                    ),
                    (
                        UObjectPropertyData::Int32(2),
                        UObjectPropertyData::Struct(
                            vec![map_prop(
                                ("StrProperty", "IntProperty"),
                                vec![
                                    (UObjectPropertyData::String("Prop1".to_string()), UObjectPropertyData::Int32(5)),
                                    (UObjectPropertyData::String("TestProp2".to_string()), UObjectPropertyData::Int32(7)),
                                ],
                            )],
                            vec![],
                        ),
                    ),
                    (
                        UObjectPropertyData::Int32(30),
                        UObjectPropertyData::Struct(vec![mkstr("SkipMapKeys")], vec![]),
                    ),
                    (
                        UObjectPropertyData::Int32(2),
                        UObjectPropertyData::Struct(
                            vec![map_prop(
                                ("StrProperty", "StructProperty"),
                                vec![
                                    (
                                        UObjectPropertyData::String("Prop1".to_string()),
                                        UObjectPropertyData::Struct(vec![mkstr("NestedStruct"), mkfloat(77f32)], vec![]),
                                    ),
                                    (
                                        UObjectPropertyData::String("TestProp2".to_string()),
                                        UObjectPropertyData::Struct(
                                            vec![mkbyte(25, 6), mkstr("TestEndMapOnNestedStruct")],
                                            vec![],
                                        ),
                                    ),
                                ],
                            )],
                            vec![],
                        ),
                    ),
                ],
            ),
            mkfloat(999f32),
            mkstr("End of the object"),
        ],
    }
}

fn assert_equality(a: &IoUObject, b: &IoUObject) {
    assert_eq!(a.summary.header, b.summary.header);
    assert_eq!(a.summary.name_map, b.summary.name_map);
    assert_eq!(a.summary.remaining_bytes, b.summary.remaining_bytes);
    assert_eq!(a.properties.len(), b.properties.len());
    for i in 0..a.properties.len() {
        assert_eq!(a.properties[i].header.name, b.properties[i].header.name);
        assert_eq!(a.properties[i].header.arr_index, b.properties[i].header.arr_index);
        assert_eq!(a.properties[i].data, b.properties[i].data);
    }
}

fn array_test_object() -> IoUObject {
    IoUObject {
        summary: get_test_object_summary(),
        properties: vec![
            UObjectProperty {
                header: UObjectPropertyHeader {
                    name: "TestArray".to_string(),
                    arr_index: 0,
                    prop_type: "ArrayProperty".to_string(),
                },
                metadata: UObjectPropertyMetadata::Array("IntProperty".to_string()),
                data: UObjectPropertyData::Array(
                    vec![
                        UObjectPropertyData::Int32(7),
                        UObjectPropertyData::Int32(293),
                        UObjectPropertyData::Int32(353),
                        UObjectPropertyData::Int32(80),
                    ],
                    None,
                ),
            },
            UObjectProperty {
                header: UObjectPropertyHeader {
                    name: "TestArray".to_string(),
                    arr_index: 0,
                    prop_type: "ArrayProperty".to_string(),
                },
                metadata: UObjectPropertyMetadata::Array("StructProperty".to_string()),
                data: UObjectPropertyData::Array(
                    vec![
                        UObjectPropertyData::Struct(vec![mkstr("Test struct 1"), mkint(7), mkbool(true)], vec![]),
                        UObjectPropertyData::Struct(
                            vec![mkstr("Test struct 2"), mkint(9), mkbool(false), mkint(10), mkstr("Yes")],
                            vec![],
                        ),
                        UObjectPropertyData::Struct(
                            vec![mkstr("Test struct 3"), mkbool(true), mkstr("No"), mkint(11)],
                            vec![],
                        ),
                    ],
                    Some((
                        UObjectPropertyHeader {
                            name: "TestStruct".to_string(),
                            prop_type: "StructProperty".to_string(),
                            arr_index: 0,
                        },
                        "TestArray".to_string(),
                    )),
                ),
            },
        ],
    }
}

fn render(pieces: &[TextPiece]) -> String {
    let mut out = String::new();
    for p in pieces {
        match p {
            TextPiece::Text(s) => out.push_str(s),
            TextPiece::Float(b) => out.push_str(&format!("{}", f32::from_bits(*b))),
        }
    }
    out
}

fn float_table(text: &str) -> Vec<(String, Option<u32>)> {
    float_candidates(text)
        .into_iter()
        .map(|c| {
            let v = c.parse::<f32>().ok().map(|f| f.to_bits());
            (c, v)
        })
        .collect()
}

fn text_of(o: &IoUObject) -> String {
    assert!(o.can_write_text());
    render(&o.to_string())
}

fn read_text(text: &str) -> Result<IoUObject, TextError> {
    IoUObject::from_string(text, &float_table(text))
}

fn verify_serialize_and_deserialize(test: IoUObject) {
    let text = text_of(&test);
    println!("{text}");
    match read_text(&text) {
        Ok(deserialized) => assert_equality(&deserialized, &test),
        Err(err) => panic!("{:?}", err),
    }

    let mut bytes = vec![];
    test.to_bytes(&mut bytes);
    match IoUObject::from_buffer(&bytes) {
        Ok(deserialized) => assert_equality(&deserialized, &test),
        Err(err) => panic!("{:?}", err),
    }
}

#[test]
fn string_serialization_is_consistent() {
    let test = get_test_object();
    let text = text_of(&test);
    println!("{text}");
    match read_text(&text) {
        Ok(deserialized) => assert_equality(&deserialized, &test),
        Err(err) => panic!("{:?}", err),
    }
}

#[test]
fn utf16_str_property() {
    verify_serialize_and_deserialize(IoUObject {
        summary: get_test_object_summary(),
        properties: vec![mkstr16("Zażółć gęślą jaźń")],
    });
}

#[test]
fn array_property() {
    verify_serialize_and_deserialize(array_test_object());
}

#[test]
fn empty_string() {
    verify_serialize_and_deserialize(IoUObject {
        summary: get_test_object_summary(),
        properties: vec![mkstr("")],
    });
}
