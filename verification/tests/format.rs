use px4_ulog::stream_parser::format::{
    parse_format, DataType, Field, Format, MaybeRepeatedType,
};
use px4_ulog::stream_parser::model::{ParseErrorType, ULogMessage};

fn read(text: &[u8]) -> Format {
    parse_format(&ULogMessage::new(b'F', text)).unwrap()
}

fn refused(text: &[u8]) -> String {
    let error = parse_format(&ULogMessage::new(b'F', text)).unwrap_err();
    assert_eq!(error.error_type(), ParseErrorType::Other);
    error.description().to_string()
}

#[test]
fn reads_name_and_fields() {
    let format = read(b"vehicle:uint64_t timestamp;float[3] xyz;other nested;other[2] more;");
    assert_eq!(format.message_name, "vehicle");
    assert_eq!(format.fields.len(), 4);
    assert_eq!(format.fields[0].field_name, "timestamp");
    assert!(matches!(format.fields[0].field_type, MaybeRepeatedType::Singular(DataType::UInt64)));
    assert_eq!(format.fields[1].field_name, "xyz");
    assert!(matches!(format.fields[1].field_type, MaybeRepeatedType::Repeated(DataType::Float, 3)));
    assert_eq!(format.fields[2].field_name, "nested");
    match &format.fields[2].field_type {
        MaybeRepeatedType::Singular(DataType::Message(name)) => assert_eq!(name, "other"),
        other => panic!("unexpected type {:?}", other),
    }
    match &format.fields[3].field_type {
        MaybeRepeatedType::Repeated(DataType::Message(name), 2) => assert_eq!(name, "other"),
        other => panic!("unexpected type {:?}", other),
    }
}

#[test]
fn knows_the_twelve_primitives() {
    assert!(matches!(DataType::from_str("int8_t"), DataType::Int8));
    assert!(matches!(DataType::from_str("uint8_t"), DataType::UInt8));
    assert!(matches!(DataType::from_str("int16_t"), DataType::Int16));
    assert!(matches!(DataType::from_str("uint16_t"), DataType::UInt16));
    assert!(matches!(DataType::from_str("int32_t"), DataType::Int32));
    assert!(matches!(DataType::from_str("uint32_t"), DataType::UInt32));
    assert!(matches!(DataType::from_str("int64_t"), DataType::Int64));
    assert!(matches!(DataType::from_str("uint64_t"), DataType::UInt64));
    assert!(matches!(DataType::from_str("float"), DataType::Float));
    assert!(matches!(DataType::from_str("double"), DataType::Double));
    assert!(matches!(DataType::from_str("bool"), DataType::Bool));
    assert!(matches!(DataType::from_str("char"), DataType::Char));
    match DataType::from_str("uint8") {
        DataType::Message(name) => assert_eq!(name, "uint8"),
        other => panic!("unexpected type {:?}", other),
    }
    match DataType::from_str("") {
        DataType::Message(name) => assert_eq!(name, ""),
        other => panic!("unexpected type {:?}", other),
    }
}

#[test]
fn empty_declarations_are_skipped() {
    let format = read(b"x:;;uint8_t a;;;bool b");
    assert_eq!(format.fields.len(), 2);
    assert_eq!(format.fields[1].field_name, "b");
    let format = read(b"x:;");
    assert_eq!(format.message_name, "x");
    assert!(format.fields.is_empty());
}

#[test]
fn array_length_is_a_signed_16_bit_number() {
    let lengths: [(&str, i16); 7] = [
        ("0", 0),
        ("7", 7),
        ("+5", 5),
        ("-3", -3),
        ("007", 7),
        ("32767", 32767),
        ("-32768", -32768),
    ];
    for (written, expected) in lengths {
        let text = format!("uint8_t[{}]", written);
        match MaybeRepeatedType::from_str(&text).unwrap() {
            MaybeRepeatedType::Repeated(DataType::UInt8, n) => assert_eq!(n, expected),
            other => panic!("unexpected type {:?}", other),
        }
    }
    for written in ["", "+", "-", "32768", "-32769", "99999", "1a", " 1", "1 ", "0x1", "1_0"] {
        let text = format!("uint8_t[{}]", written);
        let error = MaybeRepeatedType::from_str(&text).unwrap_err();
        assert_eq!(error.description(), format!("invalid type string: {}", text));
    }
}

#[test]
fn brackets_must_close_the_type() {
    for written in ["uint8_t[", "uint8_t[3", "uint8_t[3]x", "uint8_t[1][2]", "a[[1]", "[", "[]"] {
        let error = MaybeRepeatedType::from_str(written).unwrap_err();
        assert_eq!(error.error_type(), ParseErrorType::Other);
        assert_eq!(error.description(), format!("invalid type string: {}", written));
    }
    match MaybeRepeatedType::from_str("[2]").unwrap() {
        MaybeRepeatedType::Repeated(DataType::Message(name), 2) => assert_eq!(name, ""),
        other => panic!("unexpected type {:?}", other),
    }
    match MaybeRepeatedType::from_str("a]").unwrap() {
        MaybeRepeatedType::Singular(DataType::Message(name)) => assert_eq!(name, "a]"),
        other => panic!("unexpected type {:?}", other),
    }
}

#[test]
fn declaration_is_a_type_a_space_and_a_name() {
    let field = Field::from_str("uint16_t[4] values").unwrap();
    assert_eq!(field.field_name, "values");
    assert!(matches!(field.field_type, MaybeRepeatedType::Repeated(DataType::UInt16, 4)));
    for written in ["uint8_t", "uint8_t  a", " a", "uint8_t ", "uint8_t a b", " "] {
        let error = Field::from_str(written).unwrap_err();
        assert_eq!(error.description(), format!("invalid type_and_name string: {}", written));
    }
    let error = Field::from_str("uint8_t[x] a").unwrap_err();
    assert_eq!(error.description(), "invalid type string: uint8_t[x]");
}

#[test]
fn format_needs_one_colon_between_two_parts() {
    for written in ["x", "x:", ":uint8_t a;", "x:uint8_t a;:", "a:b:c", ":", ""] {
        assert_eq!(
            refused(written.as_bytes()),
            format!("invalid format string: {}", written)
        );
    }
}

#[test]
fn malformed_field_fails() {
    assert_eq!(refused(b"x:uint8_t a;oops;"), "invalid type_and_name string: oops");
    assert_eq!(refused(b"x:uint8_t[1 a;"), "invalid type string: uint8_t[1");
    assert_eq!(
        refused(b"x:uint8_t a;uint8_t  b;uint8_t[ c;"),
        "invalid type_and_name string: uint8_t  b"
    );
}

#[test]
fn duplicate_field_name_fails() {
    assert_eq!(
        refused(b"x:uint8_t a;uint16_t b;bool a;"),
        "duplicate field name in format string: x:uint8_t a;uint16_t b;bool a;"
    );
}

#[test]
fn format_must_be_utf8() {
    assert_eq!(refused(&[0x78, 0x3A, 0x80]), "format message is not a string");
    assert_eq!(refused(&[0xE2, 0x82]), "format message is not a string");
}

#[test]
fn names_may_hold_any_text() {
    let format = read("größe:uint8_t hö.he;ü[2] x[1]".as_bytes());
    assert_eq!(format.message_name, "größe");
    assert_eq!(format.fields[0].field_name, "hö.he");
    assert_eq!(format.fields[1].field_name, "x[1]");
    match &format.fields[1].field_type {
        MaybeRepeatedType::Repeated(DataType::Message(name), 2) => assert_eq!(name, "ü"),
        other => panic!("unexpected type {:?}", other),
    }
}
