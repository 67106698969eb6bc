use crate::stream_parser::layout::laid_out;
use crate::stream_parser::model_helper::{
    DoubleBits, FlattenedFieldTypeMatcher, FloatBits, LittleEndianParser,
};
use crate::text::str_eq;
use crate::unpack::{le_value, lemma_le_value_bound, lemma_pow256};
use core::marker::PhantomData;
use vstd::prelude::*;
use vstd::slice::slice_subrange;
use vstd::string::*;

verus! {

/// What a record is, as its type byte says.
#[derive(Clone, Copy, Debug, PartialEq, Eq, Structural)]
pub enum MessageType {
    Unknown,
    Format,
    Data,
    Info,
    MultipleInfo,
    Parameter,
    AddLoggedMessage,
    RemoveLoggedMessage,
    Sync,
    Dropout,
    Logging,
    FlagBits,
}

/// The kind of record that a type byte announces: the byte is read as an
/// ASCII letter.
pub open spec fn message_type_of(tag: u8) -> MessageType {
    if tag == 0x46 {
        MessageType::Format
    } else if tag == 0x44 {
        MessageType::Data
    } else if tag == 0x49 {
        MessageType::Info
    } else if tag == 0x4D {
        MessageType::MultipleInfo
    } else if tag == 0x50 {
        MessageType::Parameter
    } else if tag == 0x41 {
        MessageType::AddLoggedMessage
    } else if tag == 0x52 {
        MessageType::RemoveLoggedMessage
    } else if tag == 0x53 {
        MessageType::Sync
    } else if tag == 0x4F {
        MessageType::Dropout
    } else if tag == 0x4C {
        MessageType::Logging
    } else if tag == 0x42 {
        MessageType::FlagBits
    } else {
        MessageType::Unknown
    }
}

/// One framed record: its type byte and its payload.
pub struct ULogMessage<'a> {
    msg_type: u8,
    data: &'a [u8],
}

impl<'a> ULogMessage<'a> {
    #[verifier::type_invariant]
    spec fn fits(self) -> bool {
        self.data@.len() <= 0xFFFF
    }

    /// The type byte.
    pub closed spec fn tag(self) -> u8 {
        self.msg_type
    }

    /// The payload.
    pub closed spec fn payload(self) -> Seq<u8> {
        self.data@
    }

    pub fn new(msg_type: u8, data: &'a [u8]) -> (r: Self)
        requires
            data@.len() <= 0xFFFF,
        ensures
            r.tag() == msg_type,
            r.payload() == data@,
    {
        Self { msg_type, data }
    }

    pub fn msg_type(&self) -> (r: MessageType)
        ensures
            r == message_type_of(self.tag()),
    {
        match self.msg_type {
            0x46 => MessageType::Format,
            0x44 => MessageType::Data,
            0x49 => MessageType::Info,
            0x4D => MessageType::MultipleInfo,
            0x50 => MessageType::Parameter,
            0x41 => MessageType::AddLoggedMessage,
            0x52 => MessageType::RemoveLoggedMessage,
            0x53 => MessageType::Sync,
            0x4F => MessageType::Dropout,
            0x4C => MessageType::Logging,
            0x42 => MessageType::FlagBits,
            _ => MessageType::Unknown,
        }
    }

    pub fn size(&self) -> (r: u16)
        ensures
            r == self.payload().len(),
    {
        proof {
            use_type_invariant(self);
        }
        self.data.len() as u16
    }

    pub fn data(&self) -> (r: &'a [u8])
        ensures
            r@ == self.payload(),
            r@.len() <= 0xFFFF,
    {
        proof {
            use_type_invariant(self);
        }
        self.data
    }
}

/// The twelve primitive element types.
#[derive(Clone, Copy, Debug, PartialEq, Eq, Structural)]
pub enum FlattenedFieldType {
    Int8,
    UInt8,
    Int16,
    UInt16,
    Int32,
    UInt32,
    Int64,
    UInt64,
    Float,
    Double,
    Bool,
    Char,
}

impl FlattenedFieldType {
    /// The number of bytes that a value of the type takes on the wire.
    pub open spec fn width(self) -> nat {
        match self {
            FlattenedFieldType::Int8
            | FlattenedFieldType::UInt8
            | FlattenedFieldType::Bool
            | FlattenedFieldType::Char => 1,
            FlattenedFieldType::Int16 | FlattenedFieldType::UInt16 => 2,
            FlattenedFieldType::Int32
            | FlattenedFieldType::UInt32
            | FlattenedFieldType::Float => 4,
            FlattenedFieldType::Int64
            | FlattenedFieldType::UInt64
            | FlattenedFieldType::Double => 8,
        }
    }

    pub fn byte_width(&self) -> (w: usize)
        ensures
            w == self.width(),
    {
        match self {
            FlattenedFieldType::Int8
            | FlattenedFieldType::UInt8
            | FlattenedFieldType::Bool
            | FlattenedFieldType::Char => 1,
            FlattenedFieldType::Int16 | FlattenedFieldType::UInt16 => 2,
            FlattenedFieldType::Int32
            | FlattenedFieldType::UInt32
            | FlattenedFieldType::Float => 4,
            FlattenedFieldType::Int64
            | FlattenedFieldType::UInt64
            | FlattenedFieldType::Double => 8,
        }
    }
}

/// The value of a primitive field. A floating-point number is held by
/// its bits.
#[derive(Clone, Copy, Debug, PartialEq, Eq, Structural)]
pub enum FlattenedFieldValue {
    Int8(i8),
    UInt8(u8),
    Int16(i16),
    UInt16(u16),
    Int32(i32),
    UInt32(u32),
    Int64(i64),
    UInt64(u64),
    Float(FloatBits),
    Double(DoubleBits),
    Bool(bool),
    Char(char),
}

impl FlattenedFieldValue {
    /// The field type that the value is of.
    pub open spec fn kind(self) -> FlattenedFieldType {
        match self {
            FlattenedFieldValue::Int8(_) => FlattenedFieldType::Int8,
            FlattenedFieldValue::UInt8(_) => FlattenedFieldType::UInt8,
            FlattenedFieldValue::Int16(_) => FlattenedFieldType::Int16,
            FlattenedFieldValue::UInt16(_) => FlattenedFieldType::UInt16,
            FlattenedFieldValue::Int32(_) => FlattenedFieldType::Int32,
            FlattenedFieldValue::UInt32(_) => FlattenedFieldType::UInt32,
            FlattenedFieldValue::Int64(_) => FlattenedFieldType::Int64,
            FlattenedFieldValue::UInt64(_) => FlattenedFieldType::UInt64,
            FlattenedFieldValue::Float(_) => FlattenedFieldType::Float,
            FlattenedFieldValue::Double(_) => FlattenedFieldType::Double,
            FlattenedFieldValue::Bool(_) => FlattenedFieldType::Bool,
            FlattenedFieldValue::Char(_) => FlattenedFieldType::Char,
        }
    }
}

/// The value of the given type that bytes begin with.
pub open spec fn value_of(field_type: FlattenedFieldType, bytes: Seq<u8>) -> FlattenedFieldValue {
    match field_type {
        FlattenedFieldType::Int8 => FlattenedFieldValue::Int8(i8::decode(bytes)),
        FlattenedFieldType::UInt8 => FlattenedFieldValue::UInt8(u8::decode(bytes)),
        FlattenedFieldType::Int16 => FlattenedFieldValue::Int16(i16::decode(bytes)),
        FlattenedFieldType::UInt16 => FlattenedFieldValue::UInt16(u16::decode(bytes)),
        FlattenedFieldType::Int32 => FlattenedFieldValue::Int32(i32::decode(bytes)),
        FlattenedFieldType::UInt32 => FlattenedFieldValue::UInt32(u32::decode(bytes)),
        FlattenedFieldType::Int64 => FlattenedFieldValue::Int64(i64::decode(bytes)),
        FlattenedFieldType::UInt64 => FlattenedFieldValue::UInt64(u64::decode(bytes)),
        FlattenedFieldType::Float => FlattenedFieldValue::Float(FloatBits::decode(bytes)),
        FlattenedFieldType::Double => FlattenedFieldValue::Double(DoubleBits::decode(bytes)),
        FlattenedFieldType::Bool => FlattenedFieldValue::Bool(bool::decode(bytes)),
        FlattenedFieldType::Char => FlattenedFieldValue::Char(char::decode(bytes)),
    }
}

/// Tells apart the instances of one message schema.
#[derive(Clone, Copy, Debug, Hash, PartialEq, Eq, Structural)]
pub struct MultiId(pub u8);

impl MultiId {
    pub fn new(value: u8) -> (r: Self)
        ensures
            r.0 == value,
    {
        Self(value)
    }

    pub fn value(&self) -> (r: u8)
        ensures
            r == self.0,
    {
        self.0
    }
}

/// One primitive field of a flattened format.
#[derive(Debug)]
pub struct FlattenedField {
    pub flattened_field_name: String,
    pub field_type: FlattenedFieldType,
    /// Counted from the start of the data record, message id included.
    pub offset: u16,
}

/// What a flattened field says: its qualified name, its type and its place.
pub struct FlattenedFieldView {
    pub name: Seq<char>,
    pub field_type: FlattenedFieldType,
    pub offset: u16,
}

impl View for FlattenedField {
    type V = FlattenedFieldView;

    open spec fn view(&self) -> FlattenedFieldView {
        FlattenedFieldView {
            name: self.flattened_field_name@,
            field_type: self.field_type,
            offset: self.offset,
        }
    }
}

impl Clone for FlattenedField {
    fn clone(&self) -> (r: Self)
        ensures
            r@ == self@,
    {
        FlattenedField {
            flattened_field_name: self.flattened_field_name.clone(),
            field_type: self.field_type,
            offset: self.offset,
        }
    }
}

/// The views of the items of a sequence, in order.
pub open spec fn views<T: View>(s: Seq<T>) -> Seq<T::V> {
    s.map_values(|x: T| x@)
}

/// The place of the last field called `name`, if there is one.
pub open spec fn last_named(fields: Seq<FlattenedFieldView>, name: Seq<char>) -> Option<int>
    decreases fields.len(),
{
    if fields.len() == 0 {
        None
    } else if fields.last().name == name {
        Some(fields.len() - 1)
    } else {
        last_named(fields.drop_last(), name)
    }
}

#[derive(Clone, Copy, Debug, PartialEq, Eq, Structural)]
pub enum TimestampFieldType {
    UInt8,
    UInt16,
    UInt32,
    UInt64,
}

impl TimestampFieldType {
    /// The number of bytes that a timestamp of the type takes.
    pub open spec fn width(self) -> nat {
        match self {
            TimestampFieldType::UInt8 => 1,
            TimestampFieldType::UInt16 => 2,
            TimestampFieldType::UInt32 => 4,
            TimestampFieldType::UInt64 => 8,
        }
    }
}

#[derive(Clone, Copy, Debug, PartialEq, Eq, Structural)]
pub struct TimestampField {
    pub field_type: TimestampFieldType,
    pub offset: u16,
}

impl TimestampField {
    /// Reads the timestamp of a data record.
    pub fn parse_timestamp(&self, data: &[u8]) -> (r: u64)
        requires
            self.offset + self.field_type.width() <= data@.len(),
        ensures
            r == le_value(
                data@.subrange(self.offset as int, self.offset + self.field_type.width()),
            ),
    {
        let from = slice_subrange(data, self.offset as usize, data.len());
        proof {
            let w = self.field_type.width() as int;
            assert(from@.subrange(0, w) =~= data@.subrange(self.offset as int, self.offset + w));
            lemma_le_value_bound(from@.subrange(0, w));
            lemma_pow256();
            if w == 1 {
                let one = from@.subrange(0, 1);
                assert(one.drop_first() =~= Seq::<u8>::empty());
                assert(le_value(one) == one[0] + 256 * le_value(one.drop_first()));
            }
        }
        match self.field_type {
            TimestampFieldType::UInt8 => u8::parse(from) as u64,
            TimestampFieldType::UInt16 => u16::parse(from) as u64,
            TimestampFieldType::UInt32 => u32::parse(from) as u64,
            TimestampFieldType::UInt64 => u64::parse(from),
        }
    }
}

/// The timestamp that a field of the given type and place can serve as.
pub open spec fn as_timestamp(field: FlattenedFieldView) -> Option<TimestampField> {
    match field.field_type {
        FlattenedFieldType::UInt8 => Some(
            TimestampField { field_type: TimestampFieldType::UInt8, offset: field.offset },
        ),
        FlattenedFieldType::UInt16 => Some(
            TimestampField { field_type: TimestampFieldType::UInt16, offset: field.offset },
        ),
        FlattenedFieldType::UInt32 => Some(
            TimestampField { field_type: TimestampFieldType::UInt32, offset: field.offset },
        ),
        FlattenedFieldType::UInt64 => Some(
            TimestampField { field_type: TimestampFieldType::UInt64, offset: field.offset },
        ),
        _ => None,
    }
}

/// The timestamp field of a list of fields: the field called `timestamp`,
/// where it is an unsigned integer.
pub open spec fn timestamp_of(fields: Seq<FlattenedFieldView>) -> Option<TimestampField> {
    match last_named(fields, "timestamp"@) {
        Some(i) => as_timestamp(fields[i]),
        None => None,
    }
}

#[derive(Clone, Copy, Debug, PartialEq, Eq, Structural)]
pub enum FieldLookupError {
    MissingField,
    TypeMismatch,
}

#[derive(Clone, Copy, Debug, PartialEq, Eq, Structural)]
pub enum ParseErrorType {
    InvalidFile,
    Other,
}

#[derive(Debug)]
pub struct UlogParseError {
    error_type: ParseErrorType,
    description: String,
}

impl UlogParseError {
    pub closed spec fn kind(self) -> ParseErrorType {
        self.error_type
    }

    pub closed spec fn text(self) -> Seq<char> {
        self.description@
    }

    pub fn new(error_type: ParseErrorType, description: &str) -> (r: Self)
        ensures
            r.kind() == error_type,
            r.text() == description@,
    {
        Self { error_type, description: description.to_owned() }
    }

    /// An error of the kind `Other`.
    pub fn other(description: String) -> (r: Self)
        ensures
            r.kind() == ParseErrorType::Other,
            r.text() == description@,
    {
        Self { error_type: ParseErrorType::Other, description }
    }

    pub fn error_type(&self) -> (r: ParseErrorType)
        ensures
            r == self.kind(),
    {
        self.error_type
    }

    pub fn description(&self) -> (r: &str)
        ensures
            r@ == self.text(),
    {
        self.description.as_str()
    }
}

/// Whether `r` is what `model` says: the value whose view it gives, or an
/// error of the kind `Other` with the description it gives.
pub open spec fn parsed<T: View>(r: Result<T, UlogParseError>, model: Result<T::V, Seq<char>>) -> bool {
    match r {
        Ok(v) => model == Ok::<T::V, Seq<char>>(v@),
        Err(e) => model == Err::<T::V, Seq<char>>(e.text()) && e.kind() == ParseErrorType::Other,
    }
}

/// A message schema laid out flat: its primitive fields with their places,
/// and the length of a data record of it.
#[derive(Debug)]
pub struct FlattenedFormat {
    pub message_name: String,
    pub fields: Vec<FlattenedField>,
    pub timestamp_field: Option<TimestampField>,
    /// The length in bytes of a data record of this format.
    pub size: u16,
}

pub struct FlattenedFormatView {
    pub name: Seq<char>,
    pub fields: Seq<FlattenedFieldView>,
    pub size: u16,
}

impl View for FlattenedFormat {
    type V = FlattenedFormatView;

    open spec fn view(&self) -> FlattenedFormatView {
        FlattenedFormatView {
            name: self.message_name@,
            fields: views(self.fields@),
            size: self.size,
        }
    }
}

/// A copy of a list of fields.
pub fn clone_fields(fields: &Vec<FlattenedField>) -> (r: Vec<FlattenedField>)
    ensures
        views(r@) == views(fields@),
{
    let mut r: Vec<FlattenedField> = Vec::new();
    let mut i: usize = 0;
    while i < fields.len()
        invariant
            i <= fields.len(),
            r@.len() == i,
            forall|j: int| 0 <= j < i ==> r@[j]@ == fields@[j]@,
        decreases fields.len() - i,
    {
        r.push(fields[i].clone());
        i += 1;
    }
    assert(views(r@) =~= views(fields@));
    r
}

impl Clone for FlattenedFormat {
    fn clone(&self) -> (r: Self)
        ensures
            r@ == self@,
            r.timestamp_field == self.timestamp_field,
    {
        FlattenedFormat {
            message_name: self.message_name.clone(),
            fields: clone_fields(&self.fields),
            timestamp_field: self.timestamp_field,
            size: self.size,
        }
    }
}

impl FlattenedFormat {
    /// Whether the timestamp field is the one that the fields give.
    pub open spec fn wf(&self) -> bool {
        self.timestamp_field == timestamp_of(self@.fields)
    }

    pub fn new(message_name: String, fields: Vec<FlattenedField>, size: u16) -> (r: Result<
        Self,
        UlogParseError,
    >)
        ensures
            r is Ok,
            r->Ok_0@ == (FlattenedFormatView {
                name: message_name@,
                fields: views(fields@),
                size: size,
            }),
            r->Ok_0.wf(),
    {
        let found = find_field(&fields, "timestamp");
        let timestamp_field = match found {
            Some(i) => {
                let field = &fields[i];
                match field.field_type {
                    FlattenedFieldType::UInt8 => Some(
                        TimestampField {
                            field_type: TimestampFieldType::UInt8,
                            offset: field.offset,
                        },
                    ),
                    FlattenedFieldType::UInt16 => Some(
                        TimestampField {
                            field_type: TimestampFieldType::UInt16,
                            offset: field.offset,
                        },
                    ),
                    FlattenedFieldType::UInt32 => Some(
                        TimestampField {
                            field_type: TimestampFieldType::UInt32,
                            offset: field.offset,
                        },
                    ),
                    FlattenedFieldType::UInt64 => Some(
                        TimestampField {
                            field_type: TimestampFieldType::UInt64,
                            offset: field.offset,
                        },
                    ),
                    _ => None,
                }
            },
            None => None,
        };
        Ok(Self { message_name, fields, timestamp_field, size })
    }

    pub fn get_field_offset(&self, flattened_field_name: &str, field_type: FlattenedFieldType) -> (r:
        Result<u16, FieldLookupError>)
        ensures
            r == match last_named(self@.fields, flattened_field_name@) {
                Some(i) => if self@.fields[i].field_type == field_type {
                    Ok::<u16, FieldLookupError>(self@.fields[i].offset)
                } else {
                    Err(FieldLookupError::TypeMismatch)
                },
                None => Err(FieldLookupError::MissingField),
            },
    {
        match find_field(&self.fields, flattened_field_name) {
            Some(i) => {
                let field = &self.fields[i];
                if field.field_type == field_type {
                    Ok(field.offset)
                } else {
                    Err(FieldLookupError::TypeMismatch)
                }
            },
            None => Err(FieldLookupError::MissingField),
        }
    }

    pub fn get_field_parser<T: ParseableFieldType>(&self, flattened_field_name: &str) -> (r: Result<
        FieldParser<T>,
        FieldLookupError,
    >)
        ensures
            match last_named(self@.fields, flattened_field_name@) {
                Some(i) => if T::is_read_as(self@.fields[i].field_type) {
                    r matches Ok(parser) && parser.place() == self@.fields[i].offset
                } else {
                    r matches Err(e) && e == FieldLookupError::TypeMismatch
                },
                None => r matches Err(e) && e == FieldLookupError::MissingField,
            },
    {
        match find_field(&self.fields, flattened_field_name) {
            Some(i) => {
                let field = &self.fields[i];
                if T::matches(&field.field_type) {
                    Ok(FieldParser::<T> { offset: field.offset, _phantom: PhantomData })
                } else {
                    Err(FieldLookupError::TypeMismatch)
                }
            },
            None => Err(FieldLookupError::MissingField),
        }
    }

    /// Goes through the fields in their order.
    pub fn field_iter(&self) -> (r: core::slice::Iter<'_, FlattenedField>)
        ensures
            r == vstd::std_specs::vec::spec_into_iter_borrowed(&self.fields),
    {
        (&self.fields).into_iter()
    }

    pub fn message_name(&self) -> (r: &str)
        ensures
            r@ == self@.name,
    {
        self.message_name.as_str()
    }

    pub fn size(&self) -> (r: u16)
        ensures
            r == self@.size,
    {
        self.size
    }
}

/// A type that the values of a field can be read as.
pub trait ParseableFieldType: LittleEndianParser + FlattenedFieldTypeMatcher {

}

impl<T: LittleEndianParser + FlattenedFieldTypeMatcher> ParseableFieldType for T {

}

/// Reads the values of one field out of data records.
pub struct FieldParser<T: ParseableFieldType> {
    offset: u16,
    _phantom: PhantomData<T>,
}

impl<T: ParseableFieldType> FieldParser<T> {
    /// Where in a data record the field stands.
    pub closed spec fn place(&self) -> u16 {
        self.offset
    }

    /// Reads the field's value in a data record, given as the record's
    /// whole payload.
    pub fn parse(&self, data: &[u8]) -> (r: T)
        requires
            self.place() + T::width() <= data@.len(),
        ensures
            r == T::decode(data@.subrange(self.place() as int, data@.len() as int)),
    {
        T::parse(slice_subrange(data, self.offset as usize, data.len()))
    }

    pub fn offset(&self) -> (r: u16)
        ensures
            r == self.place(),
    {
        self.offset
    }
}

/// Looks for the last field called `name`.
pub fn find_field(fields: &Vec<FlattenedField>, name: &str) -> (r: Option<usize>)
    ensures
        match r {
            Some(i) => last_named(views(fields@), name@) == Some(i as int) && i < fields@.len(),
            None => last_named(views(fields@), name@) is None,
        },
{
    let ghost all = views(fields@);
    let mut i: usize = fields.len();
    assert(all.subrange(0, i as int) =~= all);
    while i > 0
        invariant
            i <= fields.len(),
            all == views(fields@),
            last_named(all, name@) == last_named(all.subrange(0, i as int), name@),
        decreases i,
    {
        proof {
            assert(all.subrange(0, i as int).drop_last() =~= all.subrange(0, i as int - 1));
        }
        if str_eq(fields[i - 1].flattened_field_name.as_str(), name) {
            return Some(i - 1);
        }
        i -= 1;
    }
    None
}

/// One data record as it is handed to a reader of the log.
pub struct DataMessage<'a> {
    pub msg_id: u16,
    pub multi_id: MultiId,
    pub flattened_format: &'a FlattenedFormat,
    /// The whole payload: the bytes of the message id come first.
    pub data: &'a [u8],
}

impl<'a> DataMessage<'a> {
    /// Whether the record has the length of its format, and the fields
    /// of the format lie one behind the other within it.
    pub open spec fn wf(&self) -> bool {
        &&& self.data@.len() == self.flattened_format@.size
        &&& laid_out(self.flattened_format@.fields, 2, self.flattened_format@.size as int)
    }

    /// Whether every field of the format lies within the record.
    pub open spec fn readable(&self) -> bool {
        forall|i: int|
            0 <= i < self.flattened_format@.fields.len() ==> (
            #[trigger] self.flattened_format@.fields[i]).offset
                + self.flattened_format@.fields[i].field_type.width() <= self.data@.len()
    }
}

#[derive(Clone, Copy, Debug, PartialEq, Eq, Structural)]
pub enum LogStage {
    Definitions,
    Data,
}

/// One logged line as it is handed to a reader of the log.
pub struct LoggedStringMessage<'a> {
    pub log_level: u8,
    pub timestamp: u64,
    pub logged_message: &'a str,
}

/// The name of a log level: the level is an ASCII digit from `0` to `7`.
pub open spec fn level_name(log_level: u8) -> Seq<char> {
    if log_level == 0x30 {
        "EMERGENCY"@
    } else if log_level == 0x31 {
        "ALERT"@
    } else if log_level == 0x32 {
        "CRITICAL"@
    } else if log_level == 0x33 {
        "ERROR"@
    } else if log_level == 0x34 {
        "WARNING"@
    } else if log_level == 0x35 {
        "NOTICE"@
    } else if log_level == 0x36 {
        "INFO"@
    } else if log_level == 0x37 {
        "DEBUG"@
    } else {
        "UKNOWN"@
    }
}

impl<'a> LoggedStringMessage<'a> {
    pub fn human_readable_log_level(&self) -> (r: &'static str)
        ensures
            r@ == level_name(self.log_level),
    {
        match self.log_level {
            0x30 => "EMERGENCY",
            0x31 => "ALERT",
            0x32 => "CRITICAL",
            0x33 => "ERROR",
            0x34 => "WARNING",
            0x35 => "NOTICE",
            0x36 => "INFO",
            0x37 => "DEBUG",
            _ => "UKNOWN",
        }
    }
}

/// A data record that the parser has framed and checked.
#[derive(Debug)]
pub struct DataRecord {
    pub msg_id: u16,
    pub multi_id: MultiId,
    /// The whole payload: the bytes of the message id come first.
    pub data: Vec<u8>,
}

/// A logged line that the parser has framed.
#[derive(Debug)]
pub struct LoggedString {
    pub log_level: u8,
    pub timestamp: u64,
    pub logged_message: String,
}

impl LoggedString {
    pub fn as_message(&self) -> (r: LoggedStringMessage<'_>)
        ensures
            r.log_level == self.log_level,
            r.timestamp == self.timestamp,
            r.logged_message@ == self.logged_message@,
    {
        LoggedStringMessage {
            log_level: self.log_level,
            timestamp: self.timestamp,
            logged_message: self.logged_message.as_str(),
        }
    }
}

/// What the parser hands out for a record of the data section.
#[derive(Debug)]
pub enum Delivery {
    Data(DataRecord),
    LoggedMessage(LoggedString),
}

pub enum DeliveryView {
    Data { msg_id: u16, multi_id: MultiId, data: Seq<u8> },
    LoggedMessage { log_level: u8, timestamp: u64, text: Seq<char> },
}

impl View for Delivery {
    type V = DeliveryView;

    open spec fn view(&self) -> DeliveryView {
        match self {
            Delivery::Data(record) => DeliveryView::Data {
                msg_id: record.msg_id,
                multi_id: record.multi_id,
                data: record.data@,
            },
            Delivery::LoggedMessage(line) => DeliveryView::LoggedMessage {
                log_level: line.log_level,
                timestamp: line.timestamp,
                text: line.logged_message@,
            },
        }
    }
}

} // verus!
