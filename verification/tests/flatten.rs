use px4_ulog::stream_parser::flatten::flatten_format;
use px4_ulog::stream_parser::format::{parse_format, Format};
use px4_ulog::stream_parser::model::{
    FlattenedFieldType, FlattenedFormat, ParseErrorType, ULogMessage,
};

fn formats(texts: &[&str]) -> Vec<Format> {
    texts
        .iter()
        .map(|text| parse_format(&ULogMessage::new(b'F', text.as_bytes())).unwrap())
        .collect()
}

fn flatten(texts: &[&str]) -> Vec<FlattenedFormat> {
    flatten_format(&formats(texts)).unwrap()
}

fn failure(texts: &[&str]) -> String {
    let error = flatten_format(&formats(texts)).unwrap_err();
    assert_eq!(error.error_type(), ParseErrorType::Other);
    error.description().to_string()
}

fn layout(format: &FlattenedFormat) -> Vec<(String, FlattenedFieldType, u16)> {
    format
        .fields
        .iter()
        .map(|f| (f.flattened_field_name.clone(), f.field_type, f.offset))
        .collect()
}

fn named(formats: &[FlattenedFormat], name: &str) -> FlattenedFormat {
    formats.iter().find(|f| f.message_name() == name).unwrap().clone()
}

#[test]
fn one_primitive_field() {
    let table = flatten(&["x:uint32_t a;"]);
    assert_eq!(table.len(), 1);
    assert_eq!(table[0].message_name(), "x");
    assert_eq!(layout(&table[0]), vec![("a".to_string(), FlattenedFieldType::UInt32, 2)]);
    assert_eq!(table[0].size(), 6);
}

#[test]
fn every_primitive_has_its_width() {
    let table = flatten(&[
        "all:int8_t a;uint8_t b;int16_t c;uint16_t d;int32_t e;uint32_t f;int64_t g;uint64_t h;float i;double j;bool k;char l;",
    ]);
    assert_eq!(
        layout(&table[0]),
        vec![
            ("a".to_string(), FlattenedFieldType::Int8, 2),
            ("b".to_string(), FlattenedFieldType::UInt8, 3),
            ("c".to_string(), FlattenedFieldType::Int16, 4),
            ("d".to_string(), FlattenedFieldType::UInt16, 6),
            ("e".to_string(), FlattenedFieldType::Int32, 8),
            ("f".to_string(), FlattenedFieldType::UInt32, 12),
            ("g".to_string(), FlattenedFieldType::Int64, 16),
            ("h".to_string(), FlattenedFieldType::UInt64, 24),
            ("i".to_string(), FlattenedFieldType::Float, 32),
            ("j".to_string(), FlattenedFieldType::Double, 36),
            ("k".to_string(), FlattenedFieldType::Bool, 44),
            ("l".to_string(), FlattenedFieldType::Char, 45),
        ]
    );
    assert_eq!(table[0].size(), 46);
    assert_eq!(FlattenedFieldType::Double.byte_width(), 8);
    assert_eq!(FlattenedFieldType::Float.byte_width(), 4);
    assert_eq!(FlattenedFieldType::Int16.byte_width(), 2);
    assert_eq!(FlattenedFieldType::Char.byte_width(), 1);
}

#[test]
fn nested_message_with_padding() {
    let table = flatten(&["inner:uint16_t v;uint8_t _padding0;", "outer:inner sub;uint32_t k;"]);
    let outer = named(&table, "outer");
    assert_eq!(
        layout(&outer),
        vec![
            ("sub.inner.v".to_string(), FlattenedFieldType::UInt16, 2),
            ("k".to_string(), FlattenedFieldType::UInt32, 5),
        ]
    );
    assert_eq!(outer.size(), 9);
    let inner = named(&table, "inner");
    assert_eq!(layout(&inner), vec![("v".to_string(), FlattenedFieldType::UInt16, 2)]);
    assert_eq!(inner.size(), 4);
}

#[test]
fn trailing_padding_elision() {
    let table = flatten(&["t:uint64_t ts;uint8_t _padding0;"]);
    assert_eq!(layout(&table[0]), vec![("ts".to_string(), FlattenedFieldType::UInt64, 2)]);
    assert_eq!(table[0].size(), 10);
}

#[test]
fn padding_that_is_not_last_leaves_a_hole() {
    let table = flatten(&["m:uint8_t _padding0;uint32_t a;uint16_t _padding1;uint8_t b;"]);
    assert_eq!(
        layout(&table[0]),
        vec![
            ("a".to_string(), FlattenedFieldType::UInt32, 3),
            ("b".to_string(), FlattenedFieldType::UInt8, 9),
        ]
    );
    assert_eq!(table[0].size(), 10);
}

#[test]
fn padding_that_closes_a_nested_message_takes_room() {
    let table = flatten(&["inner:uint8_t v;uint8_t _padding0;", "outer:uint8_t a;inner last;"]);
    let outer = named(&table, "outer");
    assert_eq!(
        layout(&outer),
        vec![
            ("a".to_string(), FlattenedFieldType::UInt8, 2),
            ("last.inner.v".to_string(), FlattenedFieldType::UInt8, 3),
        ]
    );
    assert_eq!(outer.size(), 5);
}

#[test]
fn padding_array_is_counted_item_by_item() {
    let table = flatten(&["m:uint8_t[3] _padding0;uint8_t a;"]);
    assert_eq!(layout(&table[0]), vec![("a".to_string(), FlattenedFieldType::UInt8, 5)]);
    assert_eq!(table[0].size(), 6);
}

#[test]
fn array_of_no_items_takes_no_room() {
    let table = flatten(&["m:uint32_t[0] none;uint8_t a;"]);
    assert_eq!(layout(&table[0]), vec![("a".to_string(), FlattenedFieldType::UInt8, 2)]);
    assert_eq!(table[0].size(), 3);
    let table = flatten(&["m:uint32_t[-4] none;uint8_t a;"]);
    assert_eq!(layout(&table[0]), vec![("a".to_string(), FlattenedFieldType::UInt8, 2)]);
    let table = flatten(&["m:missing[0] none;"]);
    assert!(table[0].fields.is_empty());
    assert_eq!(table[0].size(), 2);
}

#[test]
fn array_items_are_named_by_their_index() {
    let table = flatten(&["m:uint16_t[12] a;"]);
    let fields = layout(&table[0]);
    assert_eq!(fields.len(), 12);
    assert_eq!(fields[0], ("a[0]".to_string(), FlattenedFieldType::UInt16, 2));
    assert_eq!(fields[9], ("a[9]".to_string(), FlattenedFieldType::UInt16, 20));
    assert_eq!(fields[10], ("a[10]".to_string(), FlattenedFieldType::UInt16, 22));
    assert_eq!(fields[11], ("a[11]".to_string(), FlattenedFieldType::UInt16, 24));
    assert_eq!(table[0].size(), 26);
}

#[test]
fn nested_names_hold_the_type_at_the_joint() {
    let table = flatten(&[
        "leaf:uint8_t x;uint16_t y;",
        "mid:leaf[2] leaves;uint8_t z;",
        "top:mid m;leaf l;",
    ]);
    let top = named(&table, "top");
    assert_eq!(
        layout(&top),
        vec![
            ("m.mid.leaves[0].leaf.x".to_string(), FlattenedFieldType::UInt8, 2),
            ("m.mid.leaves[0].leaf.y".to_string(), FlattenedFieldType::UInt16, 3),
            ("m.mid.leaves[1].leaf.x".to_string(), FlattenedFieldType::UInt8, 5),
            ("m.mid.leaves[1].leaf.y".to_string(), FlattenedFieldType::UInt16, 6),
            ("m.mid.z".to_string(), FlattenedFieldType::UInt8, 8),
            ("l.leaf.x".to_string(), FlattenedFieldType::UInt8, 9),
            ("l.leaf.y".to_string(), FlattenedFieldType::UInt16, 10),
        ]
    );
    assert_eq!(top.size(), 12);
}

#[test]
fn cycle_rejection() {
    let text = failure(&["A:B b;", "B:A a;"]);
    assert!(text.contains("circular reference"));
    assert_eq!(text, "Found circular reference to A");
}

#[test]
fn message_that_holds_itself_is_refused() {
    assert_eq!(failure(&["A:uint8_t x;A again;"]), "Found circular reference to A");
}

#[test]
fn longer_cycle_is_refused() {
    assert_eq!(
        failure(&["top:uint8_t x;", "A:top t;B b;", "B:C[2] c;", "C:uint8_t y;A a;"]),
        "Found circular reference to A"
    );
}

#[test]
fn one_message_may_be_held_twice() {
    let table = flatten(&["A:B b1;B b2;", "B:uint8_t x;"]);
    let a = named(&table, "A");
    assert_eq!(
        layout(&a),
        vec![
            ("b1.B.x".to_string(), FlattenedFieldType::UInt8, 2),
            ("b2.B.x".to_string(), FlattenedFieldType::UInt8, 3),
        ]
    );
    assert_eq!(a.size(), 4);
}

#[test]
fn cycle_through_closing_padding_is_not_followed() {
    let table = flatten(&["A:B _padding0;", "B:A _padding0;"]);
    assert_eq!(table.len(), 2);
    assert!(table[0].fields.is_empty());
    assert_eq!(table[0].size(), 2);
    assert_eq!(table[1].size(), 2);
}

#[test]
fn unknown_message_is_refused() {
    assert_eq!(
        failure(&["m:uint8_t a;nope n;"]),
        "Could not find format definition for message nope"
    );
}

#[test]
fn record_longer_than_16_bits_is_refused() {
    assert_eq!(failure(&["big:uint64_t[8192] a;"]), "offset overflow");
    assert_eq!(failure(&["big:uint8_t[32767] a;uint8_t[32767] b;"]), "offset overflow");
    let table = flatten(&["big:uint8_t[32767] a;uint8_t[32766] b;"]);
    assert_eq!(table[0].size(), 65535);
    assert_eq!(table[0].fields.len(), 65533);
    assert_eq!(table[0].fields[65532].offset, 65534);
    assert_eq!(table[0].fields[65532].flattened_field_name, "b[32765]");
}

#[test]
fn first_failure_is_reported() {
    assert_eq!(
        failure(&["ok:uint8_t a;", "bad:nope n;", "worse:worse w;"]),
        "Could not find format definition for message nope"
    );
    assert_eq!(
        failure(&["m:uint64_t[8192] a;nope n;"]),
        "offset overflow"
    );
}

#[test]
fn offsets_grow_and_fill_the_record() {
    let table = flatten(&[
        "leaf:uint8_t x;uint16_t y;",
        "top:leaf[3] l;double d;char c;",
    ]);
    for format in &table {
        let mut expected = 2u16;
        for field in &format.fields {
            assert_eq!(field.offset, expected);
            expected += field.field_type.byte_width() as u16;
        }
        assert_eq!(format.size(), expected);
    }
}

#[test]
fn timestamp_field_is_found() {
    let table = flatten(&["m:uint8_t a;uint64_t timestamp;", "n:int32_t timestamp;"]);
    let m = named(&table, "m");
    let timestamp = m.timestamp_field.unwrap();
    assert_eq!(timestamp.offset, 3);
    let mut data = vec![0u8; 11];
    data[3] = 0x01;
    data[4] = 0x02;
    assert_eq!(timestamp.parse_timestamp(&data), 0x0201);
    assert!(named(&table, "n").timestamp_field.is_none());
}
