use px4_ulog::models::data::{DataType, ULogData};
use px4_ulog::models::message::ULogMessage as FileMessage;
use px4_ulog::models::MessageType;
use px4_ulog::stream_parser::model::{
    FieldLookupError, FlattenedField, FlattenedFieldType, FlattenedFormat, LoggedStringMessage,
    ParseErrorType, TimestampField, TimestampFieldType, ULogMessage, UlogParseError,
};
use px4_ulog::stream_parser::model_helper::{
    DoubleBits, FlattenedFieldTypeMatcher, FloatBits, LittleEndianParser,
};
use px4_ulog::text::{read_i16, split_ranges};
use px4_ulog::unpack;

fn field(name: &str, field_type: FlattenedFieldType, offset: u16) -> FlattenedField {
    FlattenedField { flattened_field_name: name.to_string(), field_type, offset }
}

#[test]
fn unpacks_little_endian_numbers() {
    let arr: [u8; 8] = [7, 6, 5, 4, 3, 2, 1, 0];
    assert_eq!(unpack::as_u64_le(&arr), 283686952306183);
    let arr: [u8; 4] = [2, 1, 0, 0];
    assert_eq!(unpack::as_u32_le(&arr), 258);
    let arr: [u8; 4] = [1, 0, 0, 255];
    assert_eq!(unpack::as_i32_le(&arr), -16777215);
    let arr: [u8; 2] = [0, 2];
    assert_eq!(unpack::as_u16_le(&arr), 512);
    assert_eq!(unpack::as_u64_le(&[0xFF; 8]), u64::MAX);
    assert_eq!(unpack::as_u32_le(&[0xFF; 4]), u32::MAX);
    assert_eq!(unpack::as_i32_le(&[0xFF; 4]), -1);
    assert_eq!(unpack::as_i32_le(&[0, 0, 0, 0x80]), i32::MIN);
    assert_eq!(unpack::as_i32_le(&[0xFF, 0xFF, 0xFF, 0x7F]), i32::MAX);
    assert_eq!(unpack::as_u16_le(&[0xFF; 2]), u16::MAX);
    assert_eq!(unpack::as_u16_le(&[5]), 5);
    assert_eq!(unpack::as_u64_le(&[]), 0);
}

#[test]
fn unpacks_text() {
    let arr: [u8; 5] = [72, 101, 108, 108, 111];
    assert_eq!(unpack::as_str(&arr).unwrap(), "Hello");
    let error = unpack::as_str(&[0xFF]).unwrap_err();
    assert_eq!(error.error_type(), ParseErrorType::Other);
    assert_eq!(error.description(), "data is not a string");
}

#[test]
fn reads_each_primitive() {
    let bytes = [0xFE, 0xFF, 0xFF, 0xFF, 0xFF, 0xFF, 0xFF, 0xFF, 0x01];
    assert_eq!(i8::parse(&bytes), -2);
    assert_eq!(u8::parse(&bytes), 0xFE);
    assert_eq!(i16::parse(&bytes), -2);
    assert_eq!(u16::parse(&bytes), 0xFFFE);
    assert_eq!(i32::parse(&bytes), -2);
    assert_eq!(u32::parse(&bytes), 0xFFFF_FFFE);
    assert_eq!(i64::parse(&bytes), -2);
    assert_eq!(u64::parse(&bytes), 0xFFFF_FFFF_FFFF_FFFE);
    assert!(bool::parse(&bytes));
    assert!(!bool::parse(&[0, 1]));
    assert_eq!(char::parse(&[0x41, 0x42]), 'A');
    assert_eq!(char::parse(&[0xE9]), 'é');
    let other = [0x78, 0x56, 0x34, 0x12, 0xF0, 0xDE, 0xBC, 0x9A];
    assert_eq!(u16::parse(&other), 0x5678);
    assert_eq!(i16::parse(&other), 0x5678);
    assert_eq!(u32::parse(&other), 0x1234_5678);
    assert_eq!(i32::parse(&other), 0x1234_5678);
    assert_eq!(u64::parse(&other), 0x9ABC_DEF0_1234_5678);
    assert_eq!(i64::parse(&other), 0x9ABC_DEF0_1234_5678u64 as i64);
    assert_eq!(i8::parse(&[0x80]), i8::MIN);
    assert_eq!(i8::parse(&[0x7F]), i8::MAX);
}

#[test]
fn reads_the_bits_of_floating_point_numbers() {
    let one = 1.0f32.to_le_bytes();
    let bits = FloatBits::parse(&one);
    assert_eq!(bits, FloatBits(0x3F80_0000));
    assert_eq!(f32::from_bits(bits.0), 1.0f32);
    let phi = 1.6180339887f64.to_le_bytes();
    let bits = DoubleBits::parse(&phi);
    assert_eq!(f64::from_bits(bits.0), 1.6180339887f64);
}

#[test]
fn each_type_matches_its_field_type() {
    let all = [
        FlattenedFieldType::Int8,
        FlattenedFieldType::UInt8,
        FlattenedFieldType::Int16,
        FlattenedFieldType::UInt16,
        FlattenedFieldType::Int32,
        FlattenedFieldType::UInt32,
        FlattenedFieldType::Int64,
        FlattenedFieldType::UInt64,
        FlattenedFieldType::Float,
        FlattenedFieldType::Double,
        FlattenedFieldType::Bool,
        FlattenedFieldType::Char,
    ];
    let matchers: [(fn(&FlattenedFieldType) -> bool, FlattenedFieldType); 12] = [
        (i8::matches, FlattenedFieldType::Int8),
        (u8::matches, FlattenedFieldType::UInt8),
        (i16::matches, FlattenedFieldType::Int16),
        (u16::matches, FlattenedFieldType::UInt16),
        (i32::matches, FlattenedFieldType::Int32),
        (u32::matches, FlattenedFieldType::UInt32),
        (i64::matches, FlattenedFieldType::Int64),
        (u64::matches, FlattenedFieldType::UInt64),
        (FloatBits::matches, FlattenedFieldType::Float),
        (DoubleBits::matches, FlattenedFieldType::Double),
        (bool::matches, FlattenedFieldType::Bool),
        (char::matches, FlattenedFieldType::Char),
    ];
    for (matches, own) in matchers {
        for field_type in all {
            assert_eq!(matches(&field_type), field_type == own);
        }
    }
}

#[test]
fn looks_fields_up_by_name_and_type() {
    let format = FlattenedFormat::new(
        "m".to_string(),
        vec![
            field("a", FlattenedFieldType::UInt8, 2),
            field("b", FlattenedFieldType::Int16, 3),
            field("a", FlattenedFieldType::UInt32, 5),
        ],
        9,
    )
    .unwrap();
    assert_eq!(format.message_name(), "m");
    assert_eq!(format.size(), 9);
    assert_eq!(format.get_field_offset("b", FlattenedFieldType::Int16), Ok(3));
    assert_eq!(
        format.get_field_offset("b", FlattenedFieldType::UInt16),
        Err(FieldLookupError::TypeMismatch)
    );
    assert_eq!(
        format.get_field_offset("c", FlattenedFieldType::UInt16),
        Err(FieldLookupError::MissingField)
    );
    // Of two fields of one name the later one is found.
    assert_eq!(format.get_field_offset("a", FlattenedFieldType::UInt32), Ok(5));
    assert_eq!(
        format.get_field_offset("a", FlattenedFieldType::UInt8),
        Err(FieldLookupError::TypeMismatch)
    );
    let parser = format.get_field_parser::<i16>("b").unwrap();
    assert_eq!(parser.offset(), 3);
    assert_eq!(parser.parse(&[0, 0, 0, 0xFE, 0xFF, 0, 0, 0, 0]), -2);
    assert!(matches!(
        format.get_field_parser::<u16>("b"),
        Err(FieldLookupError::TypeMismatch)
    ));
    assert!(matches!(
        format.get_field_parser::<u16>("zz"),
        Err(FieldLookupError::MissingField)
    ));
    let copy = format.clone();
    assert_eq!(copy.fields.len(), 3);
    assert_eq!(copy.fields[2].flattened_field_name, "a");
    assert_eq!(copy.size(), 9);
}

#[test]
fn timestamp_is_an_unsigned_field_called_timestamp() {
    let cases = [
        (FlattenedFieldType::UInt8, Some(TimestampFieldType::UInt8)),
        (FlattenedFieldType::UInt16, Some(TimestampFieldType::UInt16)),
        (FlattenedFieldType::UInt32, Some(TimestampFieldType::UInt32)),
        (FlattenedFieldType::UInt64, Some(TimestampFieldType::UInt64)),
        (FlattenedFieldType::Int64, None),
        (FlattenedFieldType::Double, None),
    ];
    for (field_type, expected) in cases {
        let format = FlattenedFormat::new(
            "m".to_string(),
            vec![field("x", FlattenedFieldType::UInt8, 2), field("timestamp", field_type, 3)],
            20,
        )
        .unwrap();
        assert_eq!(
            format.timestamp_field,
            expected.map(|field_type| TimestampField { field_type, offset: 3 })
        );
    }
    let none = FlattenedFormat::new("m".to_string(), vec![], 2).unwrap();
    assert!(none.timestamp_field.is_none());
}

#[test]
fn reads_timestamps_of_each_width() {
    let data = [0, 0, 0, 0x11, 0x22, 0x33, 0x44, 0x55, 0x66, 0x77, 0x88, 0x99];
    let at = |field_type| TimestampField { field_type, offset: 3 }.parse_timestamp(&data);
    assert_eq!(at(TimestampFieldType::UInt8), 0x11);
    assert_eq!(at(TimestampFieldType::UInt16), 0x2211);
    assert_eq!(at(TimestampFieldType::UInt32), 0x4433_2211);
    assert_eq!(at(TimestampFieldType::UInt64), 0x8877_6655_4433_2211);
}

#[test]
fn type_byte_says_what_a_record_is() {
    let kinds = [
        (b'F', MessageType::Format),
        (b'D', MessageType::Data),
        (b'I', MessageType::Info),
        (b'M', MessageType::MultipleInfo),
        (b'P', MessageType::Parameter),
        (b'A', MessageType::AddLoggedMessage),
        (b'R', MessageType::RemoveLoggedMessage),
        (b'S', MessageType::Sync),
        (b'O', MessageType::Dropout),
        (b'L', MessageType::Logging),
        (b'B', MessageType::FlagBits),
        (b'f', MessageType::Unknown),
        (0, MessageType::Unknown),
        (0xFF, MessageType::Unknown),
    ];
    for (tag, expected) in kinds {
        let payload = [1u8, 2, 3];
        let message = ULogMessage::new(tag, &payload);
        assert_eq!(message.msg_type(), expected);
        assert_eq!(message.size(), 3);
        assert_eq!(message.data(), &payload);
        let placed = FileMessage::new(tag, 40, 19);
        assert_eq!(placed.msg_type(), expected);
        assert_eq!(placed.size(), 40);
        assert_eq!(placed.position(), 19);
    }
}

#[test]
fn log_levels_have_names() {
    let names = [
        (b'0', "EMERGENCY"),
        (b'1', "ALERT"),
        (b'2', "CRITICAL"),
        (b'3', "ERROR"),
        (b'4', "WARNING"),
        (b'5', "NOTICE"),
        (b'6', "INFO"),
        (b'7', "DEBUG"),
        (b'8', "UKNOWN"),
        (6, "UKNOWN"),
    ];
    for (log_level, name) in names {
        let line = LoggedStringMessage { log_level, timestamp: 0, logged_message: "" };
        assert_eq!(line.human_readable_log_level(), name);
    }
}

#[test]
fn error_keeps_kind_and_text() {
    let error = UlogParseError::new(ParseErrorType::InvalidFile, "no log");
    assert_eq!(error.error_type(), ParseErrorType::InvalidFile);
    assert_eq!(error.description(), "no log");
    let error = UlogParseError::other("odd".to_string());
    assert_eq!(error.error_type(), ParseErrorType::Other);
    assert_eq!(error.description(), "odd");
}

#[test]
fn row_names_its_fields() {
    let row = ULogData::new(
        vec![],
        vec![
            "uint64_t timestamp".to_string(),
            "float x".to_string(),
            "uint8_t[3] _padding0".to_string(),
            "".to_string(),
            "nospace".to_string(),
            "bool  is ok".to_string(),
        ],
    );
    assert_eq!(row.items(), vec!["timestamp", "x", "ok"]);
    assert_eq!(row.formats().len(), 6);
    assert!(row.data().is_empty());
}

#[test]
fn row_is_read_field_by_field() {
    let mut data = vec![];
    data.extend_from_slice(&375408345u64.to_le_bytes());
    data.extend_from_slice(&(-741792999i32).to_le_bytes());
    data.extend_from_slice(&0.29999998f32.to_le_bytes());
    data.push(3);
    data.push(0);
    data.push(10);
    data.extend_from_slice(&[9, 9, 9, 9, 9]);
    let row = ULogData::new(
        data,
        vec![
            "uint64_t timestamp".to_string(),
            "int32_t lon".to_string(),
            "float  eph ".to_string(),
            "uint8_t fix_type".to_string(),
            "bool vel_ned_valid".to_string(),
            "uint8_t satellites_used".to_string(),
            "double other".to_string(),
            "uint8_t never".to_string(),
        ],
    );
    let mut fields = row.iter();
    assert_eq!(fields.next_value(), Some(("timestamp", DataType::UInt64(375408345))));
    assert_eq!(fields.next_value(), Some(("lon", DataType::Int32(-741792999))));
    match fields.next_value() {
        Some(("eph", DataType::Float(bits))) => assert_eq!(f32::from_bits(bits.0), 0.29999998),
        other => panic!("unexpected field {:?}", other),
    }
    assert_eq!(fields.next_value(), Some(("fix_type", DataType::UInt8(3))));
    assert_eq!(fields.next_value(), Some(("vel_ned_valid", DataType::Bool(false))));
    assert_eq!(fields.next_value(), Some(("satellites_used", DataType::UInt8(10))));
    assert_eq!(fields.data_index, 19);
    assert_eq!(fields.next_value(), None);
    assert_eq!(fields.format_index, 7);
    assert_eq!(fields.data_index, 19);
}

#[test]
fn number_at_the_end_of_a_row_counts_as_zero() {
    let row = ULogData::new(
        vec![1, 0, 0, 0, 2, 0, 0, 0],
        vec!["int32_t a".to_string(), "int32_t b".to_string(), "int32_t c".to_string()],
    );
    let mut fields = row.iter();
    assert_eq!(fields.next_value(), Some(("a", DataType::Int32(1))));
    assert_eq!(fields.next_value(), Some(("b", DataType::Int32(0))));
    assert_eq!(fields.data_index, 4);
    assert_eq!(fields.next_value(), Some(("c", DataType::Int32(0))));
    let empty = ULogData::new(vec![], vec!["int32_t a".to_string()]);
    assert_eq!(empty.iter().next_value(), None);
}

#[test]
fn reads_decimal_numbers() {
    let read = |text: &str| read_i16(text.as_bytes(), 0, text.len());
    assert_eq!(read("12"), Some(12));
    assert_eq!(read("-12"), Some(-12));
    assert_eq!(read("+12"), Some(12));
    assert_eq!(read("32767"), Some(32767));
    assert_eq!(read("32768"), None);
    assert_eq!(read("-32768"), Some(-32768));
    assert_eq!(read("-32769"), None);
    assert_eq!(read("000000000000000000000012"), Some(12));
    assert_eq!(read("99999999999999999999999"), None);
    assert_eq!(read("9999999999999999999999x"), None);
    assert_eq!(read(""), None);
    assert_eq!(read("-"), None);
    assert_eq!(read("--1"), None);
    assert_eq!(read("1-"), None);
    assert_eq!(read_i16(b"ab123cd", 2, 5), Some(123));
}

#[test]
fn splits_at_each_separator() {
    assert_eq!(split_ranges(b"a;bc;;d", 0, 7, b';'), vec![(0, 1), (2, 4), (5, 5), (6, 7)]);
    assert_eq!(split_ranges(b"abc", 0, 3, b';'), vec![(0, 3)]);
    assert_eq!(split_ranges(b"", 0, 0, b';'), vec![(0, 0)]);
    assert_eq!(split_ranges(b";", 0, 1, b';'), vec![(0, 0), (1, 1)]);
    assert_eq!(split_ranges(b"x:a;b", 2, 5, b';'), vec![(2, 3), (4, 5)]);
}
