use iostore_uasset::{
    float_candidates, IoUObject, StringType, TextError, TextPiece, UObjectProperty, UObjectPropertyData,
    UObjectPropertyHeader, UObjectPropertyMetadata, UObjectSummary, UObjectSummaryHeader,
};

fn summary() -> UObjectSummary {
    let summary_header = UObjectSummaryHeader {
        name: 1,
        source_name: 5,
        package_flags: 0,
        cooked_header_size: 0x40,
        name_map_names_offset: 0x40,
        name_map_names_size: 0x10,
        name_map_hashes_offset: 0x50,
        name_map_hashes_size: 0x98,
        import_map_offset: 0x130,
        export_bundles_offset: 0x140,
        export_map_offset: 0x150,
        graph_data_offset: 0x12c,
        graph_data_size: 0x04,
        pad: 0,
    };
    let names = [
        "None",
        "ArrayProperty",
        "TestArray",
        "BoolProperty",
        "TestBool",
        "ByteProperty",
        "TestByte",
        "IntProperty",
        "TestInt",
        "FloatProperty",
        "TestFloat",
        "MapProperty",
        "TestMap",
        "StrProperty",
        "TestString",
        "StructProperty",
        "TestStruct",
        "SomeUtf16Property",
    ];
    let mut name_map_type = vec![StringType::Utf8; 17];
    name_map_type.push(StringType::Utf16);
    UObjectSummary {
        header: summary_header,
        name_map: names.iter().map(|s| s.to_string()).collect(),
        name_map_type,
        remaining_bytes: vec![0; 0],
    }
}

fn prop(name: &str, index: usize, data: UObjectPropertyData, metadata: UObjectPropertyMetadata) -> UObjectProperty {
    UObjectProperty {
        header: UObjectPropertyHeader {
            name: name.to_string(),
            arr_index: index,
            prop_type: data.get_string_type().to_owned(),
        },
        metadata,
        data,
    }
}

fn render(pieces: &[TextPiece]) -> String {
    let mut out = String::new();
    for p in pieces {
        match p {
            TextPiece::Text(s) => out.push_str(s),
            TextPiece::Float(b) => out.push_str(&format!("{}", f32::from_bits(*b))),
        }
    }
    out
}

fn float_table(text: &str) -> Vec<(String, Option<u32>)> {
    float_candidates(text)
        .into_iter()
        .map(|c| {
            let v = c.parse::<f32>().ok().map(|f| f.to_bits());
            (c, v)
        })
        .collect()
}

fn read_text(text: &str) -> Result<IoUObject, TextError> {
    IoUObject::from_string(text, &float_table(text))
}

fn head() -> String {
    let s = summary();
    assert!(s.to_bytes().len() > 0);
    format!("summary: {}\ncontents:\n", s.to_string())
}

fn read_body(body: &str) -> Result<IoUObject, TextError> {
    read_text(&format!("{}{}", head(), body))
}

fn roundtrip(props: Vec<UObjectProperty>) {
    let o = IoUObject { summary: summary(), properties: props };
    assert!(o.can_write_text());
    let text = render(&o.to_string());
    let back = read_text(&text).unwrap();
    assert_eq!(back.summary.header, o.summary.header);
    assert_eq!(back.summary.name_map, o.summary.name_map);
    assert_eq!(back.properties.len(), o.properties.len());
    for i in 0..o.properties.len() {
        assert_eq!(back.properties[i].header, o.properties[i].header);
        assert_eq!(back.properties[i].metadata, o.properties[i].metadata);
        assert_eq!(back.properties[i].data, o.properties[i].data);
    }
}

#[test]
fn text_exact_output() {
    let o = IoUObject {
        summary: summary(),
        properties: vec![
            prop("Count", 0, UObjectPropertyData::Int32(10), UObjectPropertyMetadata::Empty),
            prop("Count", 2, UObjectPropertyData::Int32(-3), UObjectPropertyMetadata::Empty),
            prop("Flag", 0, UObjectPropertyData::Bool, UObjectPropertyMetadata::Bool(false)),
            prop("Small", 0, UObjectPropertyData::Byte(0xab), UObjectPropertyMetadata::Byte(0x1f, 2)),
            prop("Ratio", 0, UObjectPropertyData::Float(1.5f32.to_bits()), UObjectPropertyMetadata::Empty),
            prop("Text", 0, UObjectPropertyData::String("a\nb".to_string()), UObjectPropertyMetadata::Empty),
        ],
    };
    let text = render(&o.to_string());
    let expected = format!(
        "{}  Count: !i32 10\n  Count[2]: !i32 -3\n  Flag: false\n  Small: !ByteProperty 1f 2 ab\n  Ratio: 1.5\n  Text: \"a\\nb\"\n",
        head()
    );
    assert_eq!(text, expected);
}

#[test]
fn text_exact_map_and_array_layout() {
    let o = IoUObject {
        summary: summary(),
        properties: vec![
            prop(
                "M",
                0,
                UObjectPropertyData::MapEntries(vec![(UObjectPropertyData::UInt16(4), UObjectPropertyData::Int8(-1))]),
                UObjectPropertyMetadata::MapTypes("UInt16Property".to_string(), "Int8Property".to_string()),
            ),
            prop(
                "A",
                0,
                UObjectPropertyData::Array(vec![UObjectPropertyData::UInt32(9)], None),
                UObjectPropertyMetadata::Array("UInt32Property".to_string()),
            ),
        ],
    };
    let text = render(&o.to_string());
    let expected = format!(
        "{}  M: !Map\n    key_type: UInt16Property\n    val_type: Int8Property\n    map_data:\n      - 4:!i8 -1\n  A: !Array\n    item_type: UInt32Property\n    items:\n    - 0:!u32 9\n",
        head()
    );
    assert_eq!(text, expected);
}

#[test]
fn text_roundtrip_every_kind() {
    roundtrip(vec![
        prop("U16", 0, UObjectPropertyData::UInt16(65535), UObjectPropertyMetadata::Empty),
        prop("U32", 1, UObjectPropertyData::UInt32(4000000000), UObjectPropertyMetadata::Empty),
        prop("I8", 0, UObjectPropertyData::Int8(-128), UObjectPropertyMetadata::Empty),
        prop("I16", 0, UObjectPropertyData::Int16(-32768), UObjectPropertyMetadata::Empty),
        prop("I32", 0, UObjectPropertyData::Int32(i32::MIN), UObjectPropertyMetadata::Empty),
        prop("N", 0, UObjectPropertyData::Name("SomeName".to_string()), UObjectPropertyMetadata::Empty),
        prop(
            "E",
            0,
            UObjectPropertyData::Enum("EColor::Red".to_string()),
            UObjectPropertyMetadata::Enum("EColor".to_string()),
        ),
        prop("W", 0, UObjectPropertyData::StringUtf16("wide text".to_string()), UObjectPropertyMetadata::Empty),
        prop("B", 0, UObjectPropertyData::Bool, UObjectPropertyMetadata::Bool(true)),
        prop("F", 0, UObjectPropertyData::Float((-0.25f32).to_bits()), UObjectPropertyMetadata::Empty),
        prop(
            "S",
            0,
            UObjectPropertyData::Struct(
                vec![prop("Inner", 0, UObjectPropertyData::Int32(5), UObjectPropertyMetadata::Empty)],
                vec![1, 2, 3],
            ),
            UObjectPropertyMetadata::Struct(vec![9, 8, 7, 6]),
        ),
        prop(
            "Keys",
            0,
            UObjectPropertyData::MapEntries(vec![
                (UObjectPropertyData::Byte(0x10), UObjectPropertyData::Name("x".to_string())),
                (UObjectPropertyData::Byte(0xff), UObjectPropertyData::Name("y".to_string())),
            ]),
            UObjectPropertyMetadata::MapTypes("ByteProperty".to_string(), "NameProperty".to_string()),
        ),
        prop(
            "Floats",
            0,
            UObjectPropertyData::MapEntries(vec![(
                UObjectPropertyData::Float(2.5f32.to_bits()),
                UObjectPropertyData::Int32(-7),
            )]),
            UObjectPropertyMetadata::MapTypes("FloatProperty".to_string(), "IntProperty".to_string()),
        ),
    ]);
}

#[test]
fn float_candidates_lists_values_and_keys() {
    let c = float_candidates("summary: x\ncontents:\n  a: 1.5\n      - 2.5: !i32 3\n");
    assert!(c.contains(&"1.5".to_string()));
    assert!(c.contains(&"2.5".to_string()));
    assert!(c.contains(&"x".to_string()));
}

#[test]
fn text_error_no_summary() {
    assert_eq!(read_text("hello\n").err(), Some(TextError::NoSummary));
}

#[test]
fn text_error_no_contents() {
    let text = format!("summary: {}\nfoo\n", summary().to_string());
    assert_eq!(read_text(&text).err(), Some(TextError::NoContents));
}

#[test]
fn text_error_invalid_base64() {
    assert_eq!(read_text("summary: !!!!\ncontents:\n").err(), Some(TextError::InvalidBase64));
}

#[test]
fn text_error_binary_summary() {
    assert!(matches!(read_text("summary: AAAA\ncontents:\n").err(), Some(TextError::Binary(_))));
}

#[test]
fn text_error_missing_colon() {
    assert_eq!(read_body("  NoColonHere\n").err(), Some(TextError::MissingColon));
}

#[test]
fn text_error_invalid_number() {
    assert_eq!(read_body("  x: !i32 12a\n").err(), Some(TextError::InvalidNumber));
    assert_eq!(read_body("  x: !u16 65536\n").err(), Some(TextError::InvalidNumber));
    assert_eq!(read_body("  x[q]: !i32 1\n").err(), Some(TextError::InvalidNumber));
}

#[test]
fn text_error_missing_parameter() {
    assert_eq!(read_body("  x: !i32\n").err(), Some(TextError::MissingParameter));
    assert_eq!(read_body("  x: !EnumProperty E\n").err(), Some(TextError::MissingParameter));
}

#[test]
fn text_error_unclosed_string() {
    assert_eq!(read_body("  x: \"abc\n").err(), Some(TextError::UnclosedString));
}

#[test]
fn text_error_map_fields() {
    assert_eq!(
        read_body("  m: !Map\n    key_type: IntProperty\n    val_type: IntProperty\n    map_data:\n").err(),
        Some(TextError::MissingMapData)
    );
    assert_eq!(read_body("  m: !Map\n    bogus: 1\n").err(), Some(TextError::UnknownField));
    assert_eq!(read_body("  m: !Map\n    map_data:\n").err(), Some(TextError::FieldOrder));
    assert_eq!(read_body("  m: !Map\n  y: !i32 1\n").err(), Some(TextError::MapLayout));
}

#[test]
fn text_error_map_entries() {
    let map = "  m: !Map\n    key_type: IntProperty\n    val_type: IntProperty\n    map_data:\n";
    assert_eq!(read_body(&format!("{map}      - 1: !u16 3\n")).err(), Some(TextError::TypeMismatch));
    assert_eq!(read_body(&format!("{map}      - nocolon\n")).err(), Some(TextError::MapEntryFormat));
    let bools = "  m: !Map\n    key_type: BoolProperty\n    val_type: IntProperty\n    map_data:\n";
    assert_eq!(read_body(&format!("{bools}      - true: !i32 1\n")).err(), Some(TextError::UnknownKeyType));
    let floats = "  m: !Map\n    key_type: FloatProperty\n    val_type: IntProperty\n    map_data:\n";
    assert_eq!(read_body(&format!("{floats}      - abc: !i32 1\n")).err(), Some(TextError::InvalidFloat));
}

#[test]
fn text_error_array_fields() {
    assert_eq!(read_body("  a: !Array\n  b: !i32 1\n").err(), Some(TextError::ArrayLayout));
    assert_eq!(read_body("  a: !Array\n    items:\n").err(), Some(TextError::FieldOrder));
    assert_eq!(
        read_body("  a: !Array\n    item_type: IntProperty\n    items:\n    - nocolon\n").err(),
        Some(TextError::ArrayItemFormat)
    );
    assert_eq!(
        read_body("  a: !Array\n    array_name: x\n    array_name: y\n").err(),
        Some(TextError::MissingField)
    );
    assert_eq!(
        read_body(
            "  a: !Array\n    item_type: StructProperty\n    item_schema:\n      name: N\n      type: StructProperty\n    items:\n    item_type: IntProperty\n"
        )
        .err(),
        Some(TextError::MissingArrayName)
    );
}

#[test]
fn text_blank_lines_are_skipped() {
    let o = read_body("\n  x: !i32 4\n   \n  y: !u16 5\n").unwrap();
    assert_eq!(o.properties.len(), 2);
    assert_eq!(o.properties[0].data, UObjectPropertyData::Int32(4));
    assert_eq!(o.properties[1].data, UObjectPropertyData::UInt16(5));
    assert_eq!(o.properties[1].header.prop_type, "UInt16Property");
}

#[test]
fn table_entries_outside_the_candidates_do_not_matter() {
    let text = format!("{}  a: 1.5\n  b: !i32 3\n  c: \"x\"\n", head());
    let table = float_table(&text);
    let mut padded = vec![("3".to_string(), Some(7u32)), ("nothing here".to_string(), Some(1u32))];
    padded.extend(table.clone());
    let plain = IoUObject::from_string(&text, &table).unwrap();
    let other = IoUObject::from_string(&text, &padded);
    assert!(other.is_ok());
    let other = other.unwrap();
    assert_eq!(plain.properties.len(), other.properties.len());
    for i in 0..plain.properties.len() {
        assert_eq!(plain.properties[i].data, other.properties[i].data);
    }
    assert_eq!(plain.properties[0].data, UObjectPropertyData::Float(1.5f32.to_bits()));
}

#[test]
fn struct_head_is_base64_of_its_bytes() {
    let o = IoUObject {
        summary: summary(),
        properties: vec![prop(
            "S",
            0,
            UObjectPropertyData::Struct(vec![], vec![1, 2, 3]),
            UObjectPropertyMetadata::Struct(vec![9, 8, 7, 6]),
        )],
    };
    let text = render(&o.to_string());
    assert_eq!(text, format!("{}  S: !struct CQgHBg== AQID\n", head()));
}

#[test]
fn summary_text_reads_back() {
    let s = summary();
    let text = s.to_string();
    assert!(!text.is_empty());
    assert!(text.chars().all(|c| c.is_ascii_alphanumeric() || c == '+' || c == '/' || c == '='));
    assert_eq!(text.len() % 4, 0);
    let back = UObjectSummary::from_string(&text).unwrap();
    assert_eq!(back.header, s.header);
    assert_eq!(back.name_map, s.name_map);
    assert_eq!(UObjectSummary::from_string("AQID").err().map(|e| matches!(e, TextError::Binary(_))), Some(true));
}

#[test]
fn non_ascii_strings_read_back() {
    let o = read_body("  x: \"ó\"\n").unwrap();
    assert_eq!(o.properties[0].data, UObjectPropertyData::String("ó".to_string()));
    roundtrip(vec![
        prop("S", 0, UObjectPropertyData::String("Zażółć gęślą jaźń".to_string()), UObjectPropertyMetadata::Empty),
        prop("T", 0, UObjectPropertyData::String("ó\nü".to_string()), UObjectPropertyMetadata::Empty),
    ]);
    assert_eq!(read_body("  x: \"\n").err(), Some(TextError::UnclosedString));
}

#[test]
fn summary_padding_reads_back_as_zero() {
    let mut s = summary();
    s.header.pad = 7;
    let o = IoUObject {
        summary: s,
        properties: vec![prop("TestInt", 0, UObjectPropertyData::Int32(1), UObjectPropertyMetadata::Empty)],
    };
    assert!(o.can_write_bytes());
    let mut bytes = vec![];
    o.to_bytes(&mut bytes);
    let back = IoUObject::from_buffer(&bytes).unwrap();
    assert_eq!(back.summary.header.pad, 0);
    let mut expected = o.summary.header;
    expected.pad = 0;
    assert_eq!(back.summary.header, expected);
    let text = render(&o.to_string());
    let back = read_text(&text).unwrap();
    assert_eq!(back.summary.header, expected);
    assert_eq!(back.properties[0].data, UObjectPropertyData::Int32(1));
}
