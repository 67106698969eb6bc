use px4_ulog::full_parser::{deserialize_field, make_initial_vec, SomeVec, TotalArrayReader};
use px4_ulog::models::message::ULogMessage as PlacedMessage;
use px4_ulog::models::MessageType;
use px4_ulog::parser::dataset::{clone_texts, parse_format as declarations, DatasetCursor};
use px4_ulog::parser::header::is_ulog_header;
use px4_ulog::parser::message::{message_at, HEADER_SIZE};
use px4_ulog::stream_parser::model::{
    DataMessage, Delivery, FlattenedField, FlattenedFieldType, FlattenedFieldValue,
    FlattenedFormat, MultiId, ParseErrorType,
};
use px4_ulog::stream_parser::model_helper::{DoubleBits, FloatBits};
use px4_ulog::stream_parser::parser::LogParser;

fn field(name: &str, field_type: FlattenedFieldType, offset: u16) -> FlattenedField {
    FlattenedField { flattened_field_name: name.to_string(), field_type, offset }
}

fn record(tag: u8, payload: &[u8]) -> Vec<u8> {
    let mut bytes = vec![(payload.len() % 256) as u8, (payload.len() / 256) as u8, tag];
    bytes.extend_from_slice(payload);
    bytes
}

#[test]
fn reads_the_value_of_each_field_type() {
    let data = [0u8, 0, 0xFE, 0xFF, 0xFF, 0xFF, 0xFF, 0xFF, 0xFF, 0xFF, 0x41];
    let at = |field_type| deserialize_field(&field("f", field_type, 2), &data);
    assert_eq!(at(FlattenedFieldType::Int8), FlattenedFieldValue::Int8(-2));
    assert_eq!(at(FlattenedFieldType::UInt8), FlattenedFieldValue::UInt8(0xFE));
    assert_eq!(at(FlattenedFieldType::Int16), FlattenedFieldValue::Int16(-2));
    assert_eq!(at(FlattenedFieldType::UInt16), FlattenedFieldValue::UInt16(0xFFFE));
    assert_eq!(at(FlattenedFieldType::Int32), FlattenedFieldValue::Int32(-2));
    assert_eq!(at(FlattenedFieldType::UInt32), FlattenedFieldValue::UInt32(0xFFFF_FFFE));
    assert_eq!(at(FlattenedFieldType::Int64), FlattenedFieldValue::Int64(-2));
    assert_eq!(at(FlattenedFieldType::UInt64), FlattenedFieldValue::UInt64(u64::MAX - 1));
    assert_eq!(at(FlattenedFieldType::Float), FlattenedFieldValue::Float(FloatBits(0xFFFF_FFFE)));
    assert_eq!(
        at(FlattenedFieldType::Double),
        FlattenedFieldValue::Double(DoubleBits(u64::MAX - 1))
    );
    assert_eq!(at(FlattenedFieldType::Bool), FlattenedFieldValue::Bool(true));
    assert_eq!(
        deserialize_field(&field("c", FlattenedFieldType::Char, 10), &data),
        FlattenedFieldValue::Char('A')
    );
    assert_eq!(
        deserialize_field(&field("b", FlattenedFieldType::Bool, 0), &data),
        FlattenedFieldValue::Bool(false)
    );
}

#[test]
fn column_takes_values_of_its_type() {
    let mut column = make_initial_vec(&FlattenedFieldType::Int16);
    assert_eq!(column.field_type(), FlattenedFieldType::Int16);
    column.push(&FlattenedFieldValue::Int16(-5));
    column.push(&FlattenedFieldValue::Int16(7));
    match &column {
        SomeVec::Int16(values) => assert_eq!(values, &vec![-5, 7]),
        other => panic!("unexpected column {:?}", other),
    }
    let mut chars = make_initial_vec(&FlattenedFieldType::Char);
    chars.push(&FlattenedFieldValue::Char('x'));
    match &chars {
        SomeVec::Char(values) => assert_eq!(values, &vec!['x']),
        other => panic!("unexpected column {:?}", other),
    }
    let mut floats = make_initial_vec(&FlattenedFieldType::Float);
    floats.push(&FlattenedFieldValue::Float(FloatBits(1.5f32.to_bits())));
    match &floats {
        SomeVec::Float(values) => assert_eq!(f32::from_bits(values[0].0), 1.5),
        other => panic!("unexpected column {:?}", other),
    }
}

#[test]
fn every_field_type_has_its_column() {
    let all = [
        FlattenedFieldType::Int8,
        FlattenedFieldType::UInt8,
        FlattenedFieldType::Int16,
        FlattenedFieldType::UInt16,
        FlattenedFieldType::Int32,
        FlattenedFieldType::UInt32,
        FlattenedFieldType::Int64,
        FlattenedFieldType::UInt64,
        FlattenedFieldType::Float,
        FlattenedFieldType::Double,
        FlattenedFieldType::Bool,
        FlattenedFieldType::Char,
    ];
    for field_type in all {
        assert_eq!(make_initial_vec(&field_type).field_type(), field_type);
    }
}

#[test]
fn records_are_gathered_field_by_field() {
    let format = FlattenedFormat::new(
        "m".to_string(),
        vec![field("a", FlattenedFieldType::UInt8, 2), field("b", FlattenedFieldType::UInt16, 3)],
        5,
    )
    .unwrap();
    let mut reader = TotalArrayReader::create();
    for data in [[3u8, 0, 1, 2, 0], [3, 0, 4, 5, 0], [3, 0, 7, 0, 1]] {
        let message = DataMessage {
            msg_id: 3,
            multi_id: MultiId::new(0),
            flattened_format: &format,
            data: &data,
        };
        reader.add_message(&message);
    }
    assert_eq!(reader.messages.len(), 4);
    assert!(reader.messages[0].is_empty());
    assert!(reader.messages[2].is_empty());
    assert_eq!(reader.messages[3].len(), 2);
    match &reader.messages[3][0] {
        SomeVec::UInt8(values) => assert_eq!(values, &vec![1, 4, 7]),
        other => panic!("unexpected column {:?}", other),
    }
    match &reader.messages[3][1] {
        SomeVec::UInt16(values) => assert_eq!(values, &vec![2, 5, 256]),
        other => panic!("unexpected column {:?}", other),
    }
    let empty = FlattenedFormat::new("e".to_string(), vec![], 2).unwrap();
    let message = DataMessage {
        msg_id: 1,
        multi_id: MultiId::new(0),
        flattened_format: &empty,
        data: &[1, 0],
    };
    reader.add_message(&message);
    assert_eq!(reader.messages.len(), 4);
    assert!(reader.messages[1].is_empty());
}

#[test]
fn records_of_a_log_are_gathered() {
    let mut bytes = vec![0x55, 0x4C, 0x6F, 0x67, 0x01, 0x12, 0x35, 0, 0, 0, 0, 0, 0, 0, 0, 0];
    bytes.extend(record(b'B', &[]));
    bytes.extend(record(b'F', b"inner:uint16_t v;uint8_t _padding0;"));
    bytes.extend(record(b'F', b"outer:inner[2] sub;int8_t k;"));
    bytes.extend(record(b'A', &[4, 7, 0, b'o', b'u', b't', b'e', b'r']));
    bytes.extend(record(b'D', &[7, 0, 1, 0, 9, 2, 0, 9, 0xFF]));
    bytes.extend(record(b'D', &[7, 0, 3, 0, 9, 4, 0, 9, 0x01]));
    bytes.push(0);
    let mut parser = LogParser::new();
    let mut deliveries = Vec::new();
    parser.consume_bytes(&bytes, &mut deliveries).unwrap();
    let data_format = parser.get_final_data_format();
    let mut reader = TotalArrayReader::create();
    for delivery in &deliveries {
        if let Delivery::Data(record) = delivery {
            let message = data_format.data_message(record).unwrap();
            assert_eq!(message.multi_id, MultiId::new(4));
            let names: Vec<&str> = message
                .flattened_format
                .field_iter()
                .map(|f| f.flattened_field_name.as_str())
                .collect();
            assert_eq!(names, vec!["sub[0].inner.v", "sub[1].inner.v", "k"]);
            reader.add_message(&message);
        }
    }
    assert_eq!(reader.messages.len(), 8);
    let columns = &reader.messages[7];
    assert_eq!(columns.len(), 3);
    match (&columns[0], &columns[1], &columns[2]) {
        (SomeVec::UInt16(first), SomeVec::UInt16(second), SomeVec::Int8(k)) => {
            assert_eq!(first, &vec![1, 3]);
            assert_eq!(second, &vec![2, 4]);
            assert_eq!(k, &vec![-1, 1]);
        }
        other => panic!("unexpected columns {:?}", other),
    }
}

#[test]
fn header_of_a_log_is_known() {
    let magic = [0x55, 0x4C, 0x6F, 0x67, 0x01, 0x12, 0x35];
    assert!(is_ulog_header(&magic, 7));
    assert!(!is_ulog_header(&magic, 6));
    assert!(!is_ulog_header(&magic[..6], 6));
    assert!(!is_ulog_header(&[0x55, 0x4C, 0x6F, 0x67, 0x01, 0x12, 0x36], 7));
    assert!(!is_ulog_header(&[0; 7], 7));
    assert!(!is_ulog_header(&[0x55, 0x4C, 0x6F, 0x67, 0x01, 0x12, 0x35, 0x00], 7));
}

#[test]
fn records_follow_each_other_in_the_file() {
    assert_eq!(HEADER_SIZE, 16);
    let (message, next) = message_at(HEADER_SIZE, &[40, 0], b'B');
    assert_eq!(message, PlacedMessage::new(b'B', 40, 19));
    assert_eq!(message.position(), 19);
    assert_eq!(message.size(), 40);
    assert_eq!(message.msg_type(), MessageType::FlagBits);
    assert_eq!(next, 59);
    let (message, next) = message_at(next, &[0x34, 0x12], b'F');
    assert_eq!(message.position(), 62);
    assert_eq!(message.size(), 0x1234);
    assert_eq!(next, 62 + 0x1234);
    let (_, next) = message_at(100, &[0, 0], 0);
    assert_eq!(next, 103);
}

#[test]
fn format_declares_name_and_fields() {
    let (name, fields) = declarations(b"gps:uint64_t timestamp;float x;").unwrap();
    assert_eq!(name, "gps");
    assert_eq!(fields, vec!["uint64_t timestamp", "float x", ""]);
    let (name, fields) = declarations(b":").unwrap();
    assert_eq!(name, "");
    assert_eq!(fields, vec![""]);
    for text in ["gps", "a:b:c", ""] {
        let error = declarations(text.as_bytes()).unwrap_err();
        assert_eq!(error.error_type(), ParseErrorType::Other);
        assert_eq!(error.description(), "invalid format string");
    }
    let error = declarations(&[b'a', b':', 0xFF]).unwrap_err();
    assert_eq!(error.description(), "format message is not a string");
    let texts = vec!["a".to_string(), "bc".to_string()];
    assert_eq!(clone_texts(&texts), texts);
}

#[test]
fn cursor_follows_one_data_set() {
    let mut cursor = DatasetCursor::new("gps");
    assert!(cursor.take(MessageType::Format, b"imu:float x;").unwrap().is_none());
    assert!(cursor.formats.is_empty());
    assert!(cursor.take(MessageType::Format, b"gps:uint8_t a;bool b").unwrap().is_none());
    assert_eq!(cursor.formats, vec!["uint8_t a", "bool b"]);
    assert!(cursor.take(MessageType::Info, &[]).unwrap().is_none());
    assert!(cursor.take(MessageType::Data, &[5, 0, 1, 1]).unwrap().is_none());
    assert!(cursor.take(MessageType::AddLoggedMessage, &[0, 9, 0, b'i', b'm', b'u']).unwrap().is_none());
    assert_eq!(cursor.msg_id, 0);
    assert!(cursor.take(MessageType::AddLoggedMessage, &[0, 5, 1, b'g', b'p', b's']).unwrap().is_none());
    assert_eq!(cursor.msg_id, 0x0105);
    assert!(cursor.take(MessageType::Data, &[9, 0, 1, 1]).unwrap().is_none());
    let row = cursor.take(MessageType::Data, &[5, 1, 7, 1, 0]).unwrap().unwrap();
    assert_eq!(row.data(), &vec![7, 1, 0]);
    assert_eq!(row.formats(), &vec!["uint8_t a".to_string(), "bool b".to_string()]);
    assert_eq!(row.items(), vec!["a", "b"]);
    let error = cursor.take(MessageType::AddLoggedMessage, &[0, 5, 1, 0xFF]).unwrap_err();
    assert_eq!(error.description(), "data is not a string");
    assert_eq!(cursor.msg_id, 0x0105);
    let error = cursor.take(MessageType::Format, b"gps").unwrap_err();
    assert_eq!(error.description(), "invalid format string");
    assert_eq!(cursor.formats.len(), 2);
}
