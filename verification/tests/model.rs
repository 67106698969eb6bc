use px4_ulog::stream_parser::model::{
    DataMessage, FlattenedField, FlattenedFieldType, FlattenedFormat, MultiId,
};

#[test]
fn parses_u32() {
    let mut data: [u8; 256] = [0; 256];
    data[13] = 1;
    let field = FlattenedField {
        flattened_field_name: "timestamp".to_string(),
        field_type: FlattenedFieldType::UInt32,
        offset: 10, // relative to the beginning of the message ()
    };
    let flattened_format =
        FlattenedFormat::new("message".to_string(), vec![field.clone()], 500).unwrap();
    let data_msg = DataMessage {
        msg_id: 1,
        multi_id: MultiId(10),
        flattened_format: &flattened_format,
        data: &data,
    };
    let parser = data_msg
        .flattened_format
        .get_field_parser::<u32>("timestamp")
        .expect("could not get parser");
    assert_eq!(10, parser.offset());
    assert_eq!(0x01000000, parser.parse(&data));
}
