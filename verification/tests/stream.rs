use px4_ulog::stream_parser::model::{Delivery, FlattenedFieldType, ParseErrorType};
use px4_ulog::stream_parser::parser::{LogParser, ParseStatus};

fn header() -> Vec<u8> {
    let mut bytes = vec![0x55, 0x4C, 0x6F, 0x67, 0x01, 0x12, 0x35];
    bytes.push(1);
    bytes.extend_from_slice(&[0x10, 0x20, 0x30, 0x40, 0, 0, 0, 0]);
    bytes
}

fn record(tag: u8, payload: &[u8]) -> Vec<u8> {
    let mut bytes = vec![(payload.len() % 256) as u8, (payload.len() / 256) as u8, tag];
    bytes.extend_from_slice(payload);
    bytes
}

fn add_logged(multi_id: u8, msg_id: u16, name: &str) -> Vec<u8> {
    let mut payload = vec![multi_id, (msg_id % 256) as u8, (msg_id / 256) as u8];
    payload.extend_from_slice(name.as_bytes());
    record(b'A', &payload)
}

fn logging(log_level: u8, timestamp: u64, text: &[u8]) -> Vec<u8> {
    let mut payload = vec![log_level];
    payload.extend_from_slice(&timestamp.to_le_bytes());
    payload.extend_from_slice(text);
    record(b'L', &payload)
}

fn definitions(formats: &[&str]) -> Vec<u8> {
    let mut bytes = header();
    bytes.extend(record(b'B', &[]));
    for format in formats {
        bytes.extend(record(b'F', format.as_bytes()));
    }
    bytes
}

fn minimal_file() -> Vec<u8> {
    let mut bytes = definitions(&["x:uint32_t a;"]);
    bytes.extend(add_logged(0, 1, "x"));
    bytes.extend(record(b'D', &[0x01, 0x00, 0x2A, 0x00, 0x00, 0x00]));
    bytes.push(0);
    bytes
}

fn longer_file() -> Vec<u8> {
    let mut bytes = definitions(&["x:uint32_t a;", "y:uint8_t b;uint16_t c;"]);
    bytes.extend(add_logged(0, 1, "x"));
    bytes.extend(add_logged(3, 2, "y"));
    bytes.extend(record(b'D', &[0x01, 0x00, 0x2A, 0x00, 0x00, 0x00]));
    bytes.extend(logging(b'6', 77, b"hello"));
    bytes.extend(record(b'D', &[0x02, 0x00, 0x09, 0x34, 0x12]));
    bytes.extend(record(b'I', &[1, 2, 3]));
    bytes.extend(record(b'D', &[0x01, 0x00, 0x2B, 0x00, 0x00, 0x00]));
    bytes.push(0);
    bytes
}

fn shown(deliveries: &[Delivery]) -> Vec<String> {
    deliveries.iter().map(|d| format!("{:?}", d)).collect()
}

fn read_all(bytes: &[u8]) -> (LogParser, Vec<Delivery>) {
    let mut parser = LogParser::new();
    let mut deliveries = Vec::new();
    parser.consume_bytes(bytes, &mut deliveries).unwrap();
    (parser, deliveries)
}

fn failure_of(bytes: &[u8]) -> (ParseErrorType, String) {
    let mut parser = LogParser::new();
    let mut deliveries = Vec::new();
    let error = parser.consume_bytes(bytes, &mut deliveries).unwrap_err();
    (error.error_type(), error.description().to_string())
}

#[test]
fn minimal_valid_file() {
    let (parser, deliveries) = read_all(&minimal_file());
    assert_eq!(deliveries.len(), 1);
    match &deliveries[0] {
        Delivery::Data(record) => {
            assert_eq!(record.msg_id, 1);
            assert_eq!(record.multi_id.value(), 0);
            assert_eq!(record.data, vec![0x01, 0x00, 0x2A, 0x00, 0x00, 0x00]);
            assert_eq!(&record.data[2..], &[0x2A, 0x00, 0x00, 0x00]);
        }
        other => panic!("unexpected delivery {:?}", other),
    }
    assert_eq!(parser.status(), ParseStatus::InData);
    assert_eq!(parser.version(), 1);
    assert_eq!(parser.timestamp(), 0x40302010);
    let data_format = parser.get_final_data_format();
    let (format, multi_id) = data_format.get_message_description(1).unwrap();
    assert_eq!(multi_id.value(), 0);
    assert_eq!(format.message_name(), "x");
    assert_eq!(format.size(), 6);
    assert_eq!(format.fields.len(), 1);
    assert_eq!(format.fields[0].flattened_field_name, "a");
    assert_eq!(format.fields[0].field_type, FlattenedFieldType::UInt32);
    assert_eq!(format.fields[0].offset, 2);
    assert_eq!(data_format.flattened_formats().len(), 1);
    if let Delivery::Data(record) = &deliveries[0] {
        let message = data_format.data_message(record).unwrap();
        assert_eq!(message.msg_id, 1);
        assert_eq!(message.data.len(), message.flattened_format.size() as usize);
        let parser = message.flattened_format.get_field_parser::<u32>("a").unwrap();
        assert_eq!(parser.parse(message.data), 0x2A);
    }
}

#[test]
fn data_records_have_the_length_of_their_format() {
    let (parser, deliveries) = read_all(&longer_file());
    let data_format = parser.get_final_data_format();
    let mut records = 0;
    for delivery in &deliveries {
        if let Delivery::Data(record) = delivery {
            let (format, multi_id) = data_format.get_message_description(record.msg_id).unwrap();
            assert_eq!(record.data.len(), format.size() as usize);
            assert_eq!(record.multi_id, *multi_id);
            records += 1;
        }
    }
    assert_eq!(records, 3);
    assert_eq!(deliveries.len(), 4);
}

#[test]
fn deliveries_come_in_stream_order() {
    let (_, deliveries) = read_all(&longer_file());
    let kinds: Vec<u16> = deliveries
        .iter()
        .map(|d| match d {
            Delivery::Data(record) => record.msg_id,
            Delivery::LoggedMessage(_) => 0,
        })
        .collect();
    assert_eq!(kinds, vec![1, 0, 2, 1]);
    if let Delivery::LoggedMessage(line) = &deliveries[1] {
        assert_eq!(line.log_level, b'6');
        assert_eq!(line.timestamp, 77);
        assert_eq!(line.logged_message, "hello");
        assert_eq!(line.as_message().human_readable_log_level(), "INFO");
    } else {
        panic!("expected a logged line");
    }
}

#[test]
fn header_split_across_pieces_validates() {
    let bytes = header();
    let mut parser = LogParser::new();
    let mut deliveries = Vec::new();
    parser.consume_bytes(&bytes[..3], &mut deliveries).unwrap();
    assert_eq!(parser.status(), ParseStatus::Beginning);
    assert_eq!(parser.pending(), 3);
    parser.consume_bytes(&bytes[3..], &mut deliveries).unwrap();
    assert_eq!(parser.status(), ParseStatus::AfterHeader);
    assert_eq!(parser.pending(), 0);
    assert_eq!(parser.version(), 1);
}

#[test]
fn wrong_header_is_an_invalid_file() {
    let mut bytes = header();
    bytes[3] = 0;
    let (kind, text) = failure_of(&bytes);
    assert_eq!(kind, ParseErrorType::InvalidFile);
    assert_eq!(text, "The header does not match the template");
}

#[test]
fn short_start_is_waited_for() {
    let bytes = header();
    let mut parser = LogParser::new();
    let mut deliveries = Vec::new();
    parser.consume_bytes(&bytes[..15], &mut deliveries).unwrap();
    assert_eq!(parser.status(), ParseStatus::Beginning);
    assert_eq!(parser.pending(), 15);
}

#[test]
fn record_that_ends_with_the_piece_waits_for_the_next() {
    let mut bytes = minimal_file();
    bytes.pop();
    let mut parser = LogParser::new();
    let mut deliveries = Vec::new();
    parser.consume_bytes(&bytes, &mut deliveries).unwrap();
    assert_eq!(deliveries.len(), 0);
    assert_eq!(parser.pending(), 9);
    parser.consume_bytes(&[0], &mut deliveries).unwrap();
    assert_eq!(deliveries.len(), 1);
    assert_eq!(parser.pending(), 1);
}

#[test]
fn record_without_payload_takes_three_bytes() {
    let mut bytes = header();
    bytes.extend(record(b'B', &[]));
    bytes.extend(record(b'I', &[]));
    bytes.push(7);
    let (parser, deliveries) = read_all(&bytes);
    assert_eq!(parser.status(), ParseStatus::InDefinitions);
    assert_eq!(parser.pending(), 1);
    assert!(deliveries.is_empty());
}

#[test]
fn records_that_need_a_payload_refuse_an_empty_one() {
    let start = definitions(&["x:uint32_t a;"]);
    let mut logged = start.clone();
    logged.extend(record(b'L', &[]));
    logged.push(0);
    assert_eq!(
        failure_of(&logged),
        (ParseErrorType::Other, "Logged string message was too short".to_string())
    );
    let mut added = start.clone();
    added.extend(record(b'A', &[]));
    added.push(0);
    assert_eq!(
        failure_of(&added),
        (ParseErrorType::Other, "add logged message was too short".to_string())
    );
    let mut data = start.clone();
    data.extend(add_logged(0, 1, "x"));
    data.extend(record(b'D', &[]));
    data.push(0);
    assert_eq!(
        failure_of(&data),
        (ParseErrorType::Other, "encountered data message which was too short".to_string())
    );
}

#[test]
fn flag_bits_must_follow_the_header() {
    let mut bytes = definitions(&[]);
    bytes.extend(record(b'B', &[]));
    bytes.push(0);
    assert_eq!(
        failure_of(&bytes),
        (ParseErrorType::Other, "flag bits at bad position".to_string())
    );
}

#[test]
fn records_of_the_data_section_need_the_definitions() {
    let mut bytes = header();
    bytes.extend(add_logged(0, 1, "x"));
    bytes.push(0);
    assert_eq!(
        failure_of(&bytes),
        (ParseErrorType::Other, "AddLoggedMessage encountered in AfterHeader".to_string())
    );
    let mut bytes = header();
    bytes.extend(logging(b'1', 1, b"text"));
    bytes.push(0);
    assert_eq!(
        failure_of(&bytes),
        (ParseErrorType::Other, "Logging encountered in AfterHeader".to_string())
    );
    let mut bytes = header();
    bytes.extend(record(b'F', b"x:uint32_t a;"));
    bytes.push(0);
    assert_eq!(
        failure_of(&bytes),
        (ParseErrorType::Other, "Format encountered in AfterHeader".to_string())
    );
}

#[test]
fn data_before_the_data_section_is_refused() {
    let mut bytes = definitions(&["x:uint32_t a;"]);
    bytes.extend(record(b'D', &[1, 0, 0, 0, 0, 0]));
    bytes.push(0);
    assert_eq!(
        failure_of(&bytes),
        (
            ParseErrorType::Other,
            "data message encountered before data section was started".to_string()
        )
    );
}

#[test]
fn data_of_an_unbound_id_is_refused() {
    let mut bytes = definitions(&["x:uint32_t a;"]);
    bytes.extend(add_logged(0, 1, "x"));
    bytes.extend(record(b'D', &[0x39, 0x30, 0, 0, 0, 0]));
    bytes.push(0);
    assert_eq!(
        failure_of(&bytes),
        (
            ParseErrorType::Other,
            "data message encountered unregistered msg_id: 12345".to_string()
        )
    );
}

#[test]
fn data_of_the_wrong_length_is_refused() {
    let mut bytes = definitions(&["x:uint32_t a;"]);
    bytes.extend(add_logged(0, 1, "x"));
    bytes.extend(record(b'D', &[1, 0, 0, 0, 0]));
    bytes.push(0);
    assert_eq!(
        failure_of(&bytes),
        (ParseErrorType::Other, "data message had wrong size 5".to_string())
    );
}

#[test]
fn second_definition_of_a_format_is_refused() {
    let mut bytes = definitions(&["x:uint32_t a;", "x:uint8_t b;"]);
    bytes.push(0);
    assert_eq!(
        failure_of(&bytes),
        (ParseErrorType::Other, "duplicate message definition: x".to_string())
    );
}

#[test]
fn format_that_is_not_text_is_refused() {
    let mut bytes = definitions(&[]);
    bytes.extend(record(b'F', &[0x78, 0x3A, 0xFF, 0x20, 0x61, 0x3B]));
    bytes.push(0);
    assert_eq!(
        failure_of(&bytes),
        (ParseErrorType::Other, "format message is not a string".to_string())
    );
}

#[test]
fn name_that_is_not_text_is_refused() {
    let mut bytes = definitions(&["x:uint32_t a;"]);
    bytes.extend(record(b'A', &[0, 1, 0, 0xC3]));
    bytes.push(0);
    assert_eq!(
        failure_of(&bytes),
        (ParseErrorType::Other, "format message is not a string".to_string())
    );
}

#[test]
fn unknown_name_cannot_be_bound() {
    let mut bytes = definitions(&["x:uint32_t a;"]);
    bytes.extend(add_logged(0, 1, "z"));
    bytes.push(0);
    assert_eq!(
        failure_of(&bytes),
        (
            ParseErrorType::Other,
            "Could not find format definition for message z".to_string()
        )
    );
}

#[test]
fn second_binding_of_an_id_fails_and_changes_nothing() {
    let mut bytes = definitions(&["x:uint32_t a;", "y:uint8_t b;"]);
    bytes.extend(add_logged(0, 1, "x"));
    bytes.extend(add_logged(5, 1, "y"));
    bytes.push(0);
    let mut parser = LogParser::new();
    let mut deliveries = Vec::new();
    let error = parser.consume_bytes(&bytes, &mut deliveries).unwrap_err();
    assert_eq!(error.error_type(), ParseErrorType::Other);
    assert_eq!(error.description(), "duplicate registration for msg_id 1");
    assert_eq!(parser.status(), ParseStatus::InData);
    let data_format = parser.get_final_data_format();
    let (format, multi_id) = data_format.get_message_description(1).unwrap();
    assert_eq!(format.message_name(), "x");
    assert_eq!(multi_id.value(), 0);
    assert!(data_format.get_message_description(2).is_none());
}

#[test]
fn cycle_of_formats_fails_at_the_data_section() {
    let mut bytes = definitions(&["A:B b;", "B:A a;"]);
    bytes.extend(add_logged(0, 1, "A"));
    bytes.push(0);
    let (kind, text) = failure_of(&bytes);
    assert_eq!(kind, ParseErrorType::Other);
    assert!(text.contains("circular reference"));
}

#[test]
fn records_of_other_types_are_passed_over() {
    let mut bytes = definitions(&["x:uint32_t a;"]);
    for tag in [b'I', b'M', b'P', b'R', b'S', b'O', b'?', 0u8] {
        bytes.extend(record(tag, &[1, 2, 3, 4]));
    }
    bytes.push(0);
    let (parser, deliveries) = read_all(&bytes);
    assert!(deliveries.is_empty());
    assert_eq!(parser.status(), ParseStatus::InDefinitions);
    assert_eq!(parser.pending(), 1);
}

#[test]
fn logging_with_invalid_utf8() {
    let mut bytes = definitions(&[]);
    bytes.extend(logging(6, 99, &[0xFF, 0xFE, 0x41]));
    bytes.push(0);
    let (parser, deliveries) = read_all(&bytes);
    assert_eq!(parser.status(), ParseStatus::InData);
    assert_eq!(deliveries.len(), 1);
    match &deliveries[0] {
        Delivery::LoggedMessage(line) => {
            assert_eq!(line.log_level, 6);
            assert_eq!(line.timestamp, 99);
            assert_eq!(line.logged_message, "\u{FFFD}\u{FFFD}A");
            assert_eq!(line.as_message().human_readable_log_level(), "UKNOWN");
        }
        other => panic!("unexpected delivery {:?}", other),
    }
}

#[test]
fn two_pieces_read_as_one() {
    let bytes = longer_file();
    let (whole_parser, whole) = read_all(&bytes);
    for cut in 0..=bytes.len() {
        let mut parser = LogParser::new();
        let mut deliveries = Vec::new();
        parser.consume_bytes(&bytes[..cut], &mut deliveries).unwrap();
        parser.consume_bytes(&bytes[cut..], &mut deliveries).unwrap();
        assert_eq!(shown(&deliveries), shown(&whole), "cut at {}", cut);
        assert_eq!(parser.status(), whole_parser.status());
        assert_eq!(parser.pending(), whole_parser.pending());
    }
}

#[test]
fn pieces_that_end_within_records_read_as_one() {
    let bytes = longer_file();
    let (_, whole) = read_all(&bytes);
    let cuts = [0, 16, 19, 21, 40, 62, 70, 79, 95, 104, 110, bytes.len()];
    let mut parser = LogParser::new();
    let mut deliveries = Vec::new();
    for pair in cuts.windows(2) {
        parser.consume_bytes(&bytes[pair[0]..pair[1]], &mut deliveries).unwrap();
    }
    assert_eq!(shown(&deliveries), shown(&whole));
    assert_eq!(parser.pending(), 1);
}

#[test]
fn piece_that_completes_no_frame_is_dropped() {
    let bytes = minimal_file();
    let (_, whole) = read_all(&bytes);
    assert_eq!(whole.len(), 1);
    let mut parser = LogParser::new();
    let mut deliveries = Vec::new();
    for byte in &bytes {
        parser.consume_bytes(&[*byte], &mut deliveries).unwrap();
    }
    // The first byte is kept; each later one comes while it is left over
    // and completes no frame, so it is dropped.
    assert!(deliveries.is_empty());
    assert_eq!(parser.status(), ParseStatus::Beginning);
    assert_eq!(parser.pending(), 1);
}

#[test]
fn longest_record_that_straddles_pieces_is_never_whole() {
    let mut bytes = definitions(&[]);
    let payload = vec![0u8; 65535];
    bytes.extend(record(b'I', &payload));
    bytes.extend(record(b'I', &[]));
    bytes.push(0);
    let (parser, _) = read_all(&bytes);
    assert_eq!(parser.pending(), 1);
    let mut parser = LogParser::new();
    let mut deliveries = Vec::new();
    parser.consume_bytes(&bytes[..30], &mut deliveries).unwrap();
    assert_eq!(parser.pending(), 11);
    parser.consume_bytes(&bytes[30..], &mut deliveries).unwrap();
    assert_eq!(parser.pending(), 11);
}

#[test]
fn empty_piece_changes_nothing() {
    let bytes = minimal_file();
    let mut parser = LogParser::new();
    let mut deliveries = Vec::new();
    parser.consume_bytes(&[], &mut deliveries).unwrap();
    assert_eq!(parser.pending(), 0);
    parser.consume_bytes(&bytes[..20], &mut deliveries).unwrap();
    let pending = parser.pending();
    parser.consume_bytes(&[], &mut deliveries).unwrap();
    assert_eq!(parser.pending(), pending);
    parser.consume_bytes(&bytes[20..], &mut deliveries).unwrap();
    assert_eq!(deliveries.len(), 1);
}

#[test]
fn format_after_the_start_of_the_data_section_is_not_flattened() {
    let mut bytes = definitions(&["x:uint32_t a;"]);
    bytes.extend(add_logged(0, 1, "x"));
    bytes.extend(record(b'F', b"y:uint8_t b;"));
    bytes.extend(add_logged(0, 2, "y"));
    bytes.push(0);
    assert_eq!(
        failure_of(&bytes),
        (
            ParseErrorType::Other,
            "Could not find format definition for message y".to_string()
        )
    );
}
