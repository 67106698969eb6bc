use crate::stream_parser::flatten::{
    append_decimal, decimal, flatten_all, flatten_format, find_format, lookup, unknown_message,
};
use crate::stream_parser::format::{format_of, parse_format, Format, FormatView};
use crate::stream_parser::layout::{laid_out, lemma_table_layout};
use crate::stream_parser::model::{
    message_type_of, views, DataMessage, DataRecord, Delivery, DeliveryView, FlattenedFormat,
    FlattenedFormatView, LoggedString, MessageType, MultiId, ParseErrorType, ULogMessage,
    UlogParseError,
};
use crate::text::{from_utf8_lossy, str_eq, utf8_lossy};
use crate::unpack::{as_u16_le, as_u64_le, le_value, lemma_le_value_bound, lemma_pow256};
use std::collections::HashMap;
use vstd::prelude::*;
use vstd::slice::slice_subrange;
use vstd::string::*;
use vstd::utf8::*;

verus! {

broadcast use vstd::std_specs::hash::group_hash_axioms;

/// The longest record: a header of three bytes and the longest payload.
pub const MAX_MESSAGE_SIZE: usize = 65538;

/// Where in the log the parser is.
#[derive(Clone, Copy, Debug, PartialEq, Eq, Structural)]
pub enum ParseStatus {
    Beginning,
    AfterHeader,
    InDefinitions,
    InData,
}

impl Default for ParseStatus {
    fn default() -> (r: Self)
        ensures
            r == ParseStatus::Beginning,
    {
        ParseStatus::Beginning
    }
}

/// The flattened formats of a log, and the message ids that were bound
/// to one of them.
pub struct DataFormat {
    flattened_format: Vec<FlattenedFormat>,
    registered_messages: HashMap<u16, (FlattenedFormat, MultiId)>,
}

#[verifier::ext_equal]
pub struct DataFormatView {
    pub table: Seq<FlattenedFormatView>,
    pub registered: Map<u16, (FlattenedFormatView, MultiId)>,
}

/// What the registrations say.
pub open spec fn registrations(m: Map<u16, (FlattenedFormat, MultiId)>) -> Map<
    u16,
    (FlattenedFormatView, MultiId),
> {
    Map::new(|id: u16| m.contains_key(id), |id: u16| (m[id].0@, m[id].1))
}

impl View for DataFormat {
    type V = DataFormatView;

    closed spec fn view(&self) -> DataFormatView {
        DataFormatView {
            table: views(self.flattened_format@),
            registered: registrations(self.registered_messages@),
        }
    }
}

/// The place of the first flattened format called `name`, if there is one.
pub open spec fn position(table: Seq<FlattenedFormatView>, name: Seq<char>) -> Option<int>
    decreases table.len(),
{
    if table.len() == 0 {
        None
    } else {
        match position(table.drop_last(), name) {
            Some(i) => Some(i),
            None => if table.last().name == name {
                Some(table.len() - 1)
            } else {
                None
            },
        }
    }
}

/// The flattened format that is found is the first one of its name.
pub proof fn lemma_position(table: Seq<FlattenedFormatView>, name: Seq<char>)
    ensures
        match position(table, name) {
            Some(i) => 0 <= i < table.len() && table[i].name == name && forall|j: int|
                0 <= j < i ==> table[j].name != name,
            None => forall|j: int| 0 <= j < table.len() ==> table[j].name != name,
        },
    decreases table.len(),
{
    if table.len() > 0 {
        let front = table.drop_last();
        lemma_position(front, name);
        assert(forall|j: int| 0 <= j < front.len() ==> front[j] == table[j]);
    }
}

pub open spec fn duplicate_registration(msg_id: u16) -> Seq<char> {
    "duplicate registration for msg_id "@ + decimal(msg_id as nat)
}

/// Binding `msg_id` to the flattened format called `name`: the format
/// must be there, and the id must be free.
pub open spec fn register(d: DataFormatView, msg_id: u16, name: Seq<char>, multi_id: u8) -> Result<
    DataFormatView,
    Seq<char>,
> {
    match position(d.table, name) {
        None => Err(unknown_message(name)),
        Some(i) => if d.registered.contains_key(msg_id) {
            Err(duplicate_registration(msg_id))
        } else {
            Ok(
                DataFormatView {
                    table: d.table,
                    registered: d.registered.insert(msg_id, (d.table[i], MultiId(multi_id))),
                },
            )
        },
    }
}

impl DataFormat {
    /// Whether the fields of every format lie within its record.
    pub open spec fn wf(&self) -> bool {
        orderly(self@)
    }

    pub fn new(flattened_format: Vec<FlattenedFormat>) -> (r: Self)
        ensures
            r@ == (DataFormatView {
                table: views(flattened_format@),
                registered: Map::<u16, (FlattenedFormatView, MultiId)>::empty(),
            }),
    {
        let r = DataFormat { flattened_format, registered_messages: HashMap::new() };
        assert(r@.registered =~= Map::<u16, (FlattenedFormatView, MultiId)>::empty());
        r
    }

    /// Binds `msg_id` to the flattened format called `message_name`. A
    /// failure leaves everything as it was.
    pub fn register_msg_id(&mut self, msg_id: u16, message_name: &str, multi_id: u8) -> (r: Result<
        (),
        UlogParseError,
    >)
        ensures
            match r {
                Ok(_) => register(old(self)@, msg_id, message_name@, multi_id) == Ok::<
                    DataFormatView,
                    Seq<char>,
                >(final(self)@),
                Err(e) => register(old(self)@, msg_id, message_name@, multi_id) == Err::<
                    DataFormatView,
                    Seq<char>,
                >(e.text()) && e.kind() == ParseErrorType::Other && final(self)@ == old(self)@,
            },
            old(self).wf() ==> final(self).wf(),
    {
        let ghost table = views(self.flattened_format@);
        proof {
            lemma_position(table, message_name@);
        }
        let mut i: usize = 0;
        while i < self.flattened_format.len()
            invariant
                i <= self.flattened_format.len(),
                *self == *old(self),
                table == views(self.flattened_format@),
                forall|j: int| 0 <= j < i ==> table[j].name != message_name@,
            decreases self.flattened_format.len() - i,
        {
            if str_eq(self.flattened_format[i].message_name.as_str(), message_name) {
                proof {
                    assert(table[i as int].name == message_name@);
                    lemma_position(table, message_name@);
                }
                if self.registered_messages.contains_key(&msg_id) {
                    let mut text = "duplicate registration for msg_id ".to_owned();
                    append_decimal(&mut text, msg_id);
                    return Err(UlogParseError::other(text));
                }
                let flattened_message = self.flattened_format[i].clone();
                self.registered_messages.insert(msg_id, (flattened_message, MultiId::new(multi_id)));
                assert(self@.registered =~= old(self)@.registered.insert(
                    msg_id,
                    (table[i as int], MultiId(multi_id)),
                ));
                return Ok(());
            }
            i += 1;
        }
        let mut text = "Could not find format definition for message ".to_owned();
        text.append(message_name);
        Err(UlogParseError::other(text))
    }

    pub fn get_message_description(&self, msg_id: u16) -> (r: Option<&(FlattenedFormat, MultiId)>)
        ensures
            match r {
                Some(d) => self@.registered.contains_key(msg_id) && self@.registered[msg_id] == (
                    d.0@,
                    d.1,
                ),
                None => !self@.registered.contains_key(msg_id),
            },
    {
        self.registered_messages.get(&msg_id)
    }

    /// The flattened formats, in the order in which the formats were
    /// defined.
    pub fn flattened_formats(&self) -> (r: &Vec<FlattenedFormat>)
        ensures
            views(r@) == self@.table,
    {
        &self.flattened_format
    }

    /// The data record as a reader of the log sees it, with the format
    /// that its message id is bound to.
    pub fn data_message<'a>(&'a self, record: &'a DataRecord) -> (r: Option<DataMessage<'a>>)
        ensures
            match r {
                Some(m) => self@.registered.contains_key(record.msg_id) && m.flattened_format@
                    == self@.registered[record.msg_id].0 && m.msg_id == record.msg_id && m.multi_id
                    == record.multi_id && m.data@ == record.data@,
                None => !self@.registered.contains_key(record.msg_id),
            },
            self.wf() && fits(
                self@,
                DeliveryView::Data {
                    msg_id: record.msg_id,
                    multi_id: record.multi_id,
                    data: record.data@,
                },
            ) ==> (r matches Some(m) && m.wf()),
    {
        match self.registered_messages.get(&record.msg_id) {
            Some(description) => Some(
                DataMessage {
                    msg_id: record.msg_id,
                    multi_id: record.multi_id,
                    flattened_format: &description.0,
                    data: record.data.as_slice(),
                },
            ),
            None => None,
        }
    }
}

impl Default for DataFormat {
    fn default() -> (r: Self)
        ensures
            r@ == (DataFormatView {
                table: Seq::<FlattenedFormatView>::empty(),
                registered: Map::<u16, (FlattenedFormatView, MultiId)>::empty(),
            }),
    {
        let table: Vec<FlattenedFormat> = Vec::new();
        assert(views(table@) =~= Seq::<FlattenedFormatView>::empty());
        DataFormat::new(table)
    }
}

/// Reads a log piece by piece, as the bytes come in.
pub struct LogParser {
    version: u8,
    timestamp: u64,
    leftover: Vec<u8>,
    message_formats: Vec<Format>,
    flattened_format: DataFormat,
    status: ParseStatus,
}

/// What a parser has read so far.
#[verifier::ext_equal]
pub struct ParserView {
    pub version: u8,
    pub timestamp: u64,
    /// The bytes that were left over when the last piece ended within a
    /// record.
    pub carry: Seq<u8>,
    pub formats: Seq<FormatView>,
    pub data_format: DataFormatView,
    pub status: ParseStatus,
}

impl View for LogParser {
    type V = ParserView;

    closed spec fn view(&self) -> ParserView {
        ParserView {
            version: self.version,
            timestamp: self.timestamp,
            carry: self.leftover@,
            formats: views(self.message_formats@),
            data_format: self.flattened_format@,
            status: self.status,
        }
    }
}

/// A parser that has read nothing.
pub open spec fn fresh() -> ParserView {
    ParserView {
        version: 0,
        timestamp: 0,
        carry: Seq::empty(),
        formats: Seq::empty(),
        data_format: DataFormatView { table: Seq::empty(), registered: Map::empty() },
        status: ParseStatus::Beginning,
    }
}

/// Why reading failed.
pub struct Failure {
    pub kind: ParseErrorType,
    pub text: Seq<char>,
}

/// The failure that an error tells of.
pub open spec fn failure_of(e: UlogParseError) -> Failure {
    Failure { kind: e.kind(), text: e.text() }
}

/// What one record does: the parser's next state, what is handed out,
/// and the failure, if the record is refused.
#[verifier::ext_equal]
pub struct Step {
    pub state: ParserView,
    pub delivery: Option<DeliveryView>,
    pub failure: Option<Failure>,
}

pub open spec fn proceed(state: ParserView) -> Step {
    Step { state, delivery: None, failure: None }
}

pub open spec fn refuse(state: ParserView, text: Seq<char>) -> Step {
    Step {
        state,
        delivery: None,
        failure: Some(Failure { kind: ParseErrorType::Other, text }),
    }
}

pub open spec fn hand_out(state: ParserView, delivery: DeliveryView) -> Step {
    Step { state, delivery: Some(delivery), failure: None }
}

/// The seven bytes that a log begins with.
pub open spec fn magic() -> Seq<u8> {
    seq![0x55u8, 0x4Cu8, 0x6Fu8, 0x67u8, 0x01u8, 0x12u8, 0x35u8]
}

/// What stands at the start of a byte string.
pub enum Frame {
    /// Not enough bytes yet.
    NeedMore,
    /// Sixteen bytes or more that do not begin as a log does.
    BadMagic,
    /// The file header.
    Header { version: u8, timestamp: u64 },
    /// A whole record, with at least one byte behind it.
    Record { tag: u8, payload: Seq<u8> },
}

/// The frame at the start of `bytes`: the file header at the beginning
/// of the log, a record after it. A record is only taken when a byte
/// follows it.
#[verifier::opaque]
pub open spec fn frame(beginning: bool, bytes: Seq<u8>) -> Frame {
    if beginning {
        if bytes.len() < 16 {
            Frame::NeedMore
        } else if bytes.subrange(0, 7) != magic() {
            Frame::BadMagic
        } else {
            Frame::Header {
                version: bytes[7],
                timestamp: le_value(bytes.subrange(8, 16)) as u64,
            }
        }
    } else {
        if bytes.len() < 3 {
            Frame::NeedMore
        } else if bytes.len() <= le_value(bytes.subrange(0, 2)) + 3 {
            Frame::NeedMore
        } else {
            Frame::Record {
                tag: bytes[2],
                payload: bytes.subrange(3, 3 + le_value(bytes.subrange(0, 2)) as int),
            }
        }
    }
}

/// The number of bytes that a frame takes.
pub open spec fn frame_len(f: Frame) -> int {
    match f {
        Frame::NeedMore => 0,
        Frame::BadMagic => 0,
        Frame::Header { .. } => 16,
        Frame::Record { payload, .. } => 3 + payload.len() as int,
    }
}

pub open spec fn status_text(status: ParseStatus) -> Seq<char> {
    match status {
        ParseStatus::Beginning => "Beginning"@,
        ParseStatus::AfterHeader => "AfterHeader"@,
        ParseStatus::InDefinitions => "InDefinitions"@,
        ParseStatus::InData => "InData"@,
    }
}

pub open spec fn type_text(message_type: MessageType) -> Seq<char> {
    match message_type {
        MessageType::Unknown => "Unknown"@,
        MessageType::Format => "Format"@,
        MessageType::Data => "Data"@,
        MessageType::Info => "Info"@,
        MessageType::MultipleInfo => "MultipleInfo"@,
        MessageType::Parameter => "Parameter"@,
        MessageType::AddLoggedMessage => "AddLoggedMessage"@,
        MessageType::RemoveLoggedMessage => "RemoveLoggedMessage"@,
        MessageType::Sync => "Sync"@,
        MessageType::Dropout => "Dropout"@,
        MessageType::Logging => "Logging"@,
        MessageType::FlagBits => "FlagBits"@,
    }
}

pub open spec fn unexpected(message_type: MessageType, status: ParseStatus) -> Seq<char> {
    type_text(message_type) + " encountered in "@ + status_text(status)
}

pub open spec fn bad_header() -> Seq<char> {
    "The header does not match the template"@
}

pub open spec fn misplaced_flag_bits() -> Seq<char> {
    "flag bits at bad position"@
}

pub open spec fn duplicate_definition(name: Seq<char>) -> Seq<char> {
    "duplicate message definition: "@ + name
}

pub open spec fn short_registration() -> Seq<char> {
    "add logged message was too short"@
}

pub open spec fn name_not_text() -> Seq<char> {
    "format message is not a string"@
}

pub open spec fn short_logging() -> Seq<char> {
    "Logged string message was too short"@
}

pub open spec fn early_data() -> Seq<char> {
    "data message encountered before data section was started"@
}

pub open spec fn short_data() -> Seq<char> {
    "encountered data message which was too short"@
}

pub open spec fn unregistered(msg_id: u16) -> Seq<char> {
    "data message encountered unregistered msg_id: "@ + decimal(msg_id as nat)
}

pub open spec fn wrong_size(size: nat) -> Seq<char> {
    "data message had wrong size "@ + decimal(size)
}

/// The step into the data section that a record of the data section
/// takes where it is the first: the formats are flattened, once.
pub open spec fn enter_data_section(p: ParserView, message_type: MessageType) -> Step {
    if p.status != ParseStatus::InDefinitions && p.status != ParseStatus::InData {
        refuse(p, unexpected(message_type, p.status))
    } else if p.status == ParseStatus::InDefinitions {
        match flatten_all(p.formats, p.formats.len() as int) {
            Err(e) => refuse(p, e),
            Ok(table) => proceed(
                ParserView {
                    data_format: DataFormatView { table, registered: Map::empty() },
                    status: ParseStatus::InData,
                    ..p
                },
            ),
        }
    } else {
        proceed(p)
    }
}

/// A format record defines a message format, once.
pub open spec fn define(p: ParserView, payload: Seq<u8>) -> Step {
    if p.status != ParseStatus::InDefinitions && p.status != ParseStatus::InData {
        refuse(p, unexpected(MessageType::Format, p.status))
    } else {
        match format_of(payload) {
            Err(e) => refuse(p, e),
            Ok(format) => if lookup(p.formats, format.name) is Some {
                refuse(p, duplicate_definition(format.name))
            } else {
                proceed(ParserView { formats: p.formats.push(format), ..p })
            },
        }
    }
}

/// A record that binds a message id to a format and an instance.
pub open spec fn add_logged(p: ParserView, payload: Seq<u8>) -> Step {
    let entered = enter_data_section(p, MessageType::AddLoggedMessage);
    let q = entered.state;
    if entered.failure is Some {
        entered
    } else if payload.len() < 3 {
        refuse(q, short_registration())
    } else if !valid_utf8(payload.subrange(3, payload.len() as int)) {
        refuse(q, name_not_text())
    } else {
        match register(
            q.data_format,
            le_value(payload.subrange(1, 3)) as u16,
            decode_utf8(payload.subrange(3, payload.len() as int)),
            payload[0],
        ) {
            Err(e) => refuse(q, e),
            Ok(d) => proceed(ParserView { data_format: d, ..q }),
        }
    }
}

/// A record that holds a logged line.
pub open spec fn log(p: ParserView, payload: Seq<u8>) -> Step {
    let entered = enter_data_section(p, MessageType::Logging);
    let q = entered.state;
    if entered.failure is Some {
        entered
    } else if payload.len() < 9 {
        refuse(q, short_logging())
    } else {
        hand_out(
            q,
            DeliveryView::LoggedMessage {
                log_level: payload[0],
                timestamp: le_value(payload.subrange(1, 9)) as u64,
                text: utf8_lossy(payload.subrange(9, payload.len() as int)),
            },
        )
    }
}

/// A data record: its message id must be bound, and its length must be
/// the one of the format.
pub open spec fn data(p: ParserView, payload: Seq<u8>) -> Step {
    let msg_id = le_value(payload.subrange(0, 2)) as u16;
    if p.status != ParseStatus::InData {
        refuse(p, early_data())
    } else if payload.len() < 2 {
        refuse(p, short_data())
    } else if !p.data_format.registered.contains_key(msg_id) {
        refuse(p, unregistered(msg_id))
    } else if p.data_format.registered[msg_id].0.size != payload.len() {
        refuse(p, wrong_size(payload.len()))
    } else {
        hand_out(
            p,
            DeliveryView::Data {
                msg_id,
                multi_id: p.data_format.registered[msg_id].1,
                data: payload,
            },
        )
    }
}

/// What a record of the type `tag` with the given payload does.
#[verifier::opaque]
pub open spec fn dispatch(p: ParserView, tag: u8, payload: Seq<u8>) -> Step {
    match message_type_of(tag) {
        MessageType::FlagBits => if p.status != ParseStatus::AfterHeader {
            refuse(p, misplaced_flag_bits())
        } else {
            proceed(ParserView { status: ParseStatus::InDefinitions, ..p })
        },
        MessageType::Format => define(p, payload),
        MessageType::AddLoggedMessage => add_logged(p, payload),
        MessageType::Logging => log(p, payload),
        MessageType::Data => data(p, payload),
        _ => proceed(p),
    }
}

/// What the frame at the start of `bytes` does. Where the bytes do not
/// hold a whole frame yet, nothing happens.
pub open spec fn step(p: ParserView, bytes: Seq<u8>) -> Step {
    match frame(p.status == ParseStatus::Beginning, bytes) {
        Frame::NeedMore => proceed(p),
        Frame::BadMagic => Step {
            state: p,
            delivery: None,
            failure: Some(Failure { kind: ParseErrorType::InvalidFile, text: bad_header() }),
        },
        Frame::Header { version, timestamp } => proceed(
            ParserView { version, timestamp, status: ParseStatus::AfterHeader, ..p },
        ),
        Frame::Record { tag, payload } => dispatch(p, tag, payload),
    }
}

/// The number of bytes that the frame at the start of `bytes` takes.
pub open spec fn taken(p: ParserView, bytes: Seq<u8>) -> int {
    frame_len(frame(p.status == ParseStatus::Beginning, bytes))
}

/// What a step hands out, as a list.
pub open spec fn delivered(s: Step) -> Seq<DeliveryView> {
    match s.delivery {
        Some(d) => seq![d],
        None => Seq::empty(),
    }
}

/// Whether what a stepping function returned and did is what `s` says.
pub open spec fn stepped(
    s: Step,
    r: Result<(), UlogParseError>,
    after: ParserView,
    before_list: Seq<Delivery>,
    after_list: Seq<Delivery>,
) -> bool {
    &&& after == s.state
    &&& views(after_list) =~= views(before_list) + delivered(s)
    &&& match r {
        Ok(_) => s.failure is None,
        Err(e) => s.failure == Some(failure_of(e)),
    }
}

/// What reading a run of bytes does: the parser's state at the end, what
/// was handed out on the way, and the failure that ended it, if any.
#[verifier::ext_equal]
pub struct Run {
    pub state: ParserView,
    pub deliveries: Seq<DeliveryView>,
    pub failure: Option<Failure>,
}

pub open spec fn drop_carry(p: ParserView) -> ParserView {
    ParserView { carry: Seq::empty(), ..p }
}

pub open spec fn with_carry(p: ParserView, carry: Seq<u8>) -> ParserView {
    ParserView { carry, ..p }
}

/// Reading `bytes` frame by frame from the state `p`, whatever `p` had
/// left over: each whole frame does its step; what is left of `bytes`
/// when no whole frame is left is kept for later. A failure ends the
/// reading, and nothing is kept.
pub open spec fn run(p: ParserView, bytes: Seq<u8>) -> Run
    decreases bytes.len(),
{
    let s = step(p, bytes);
    let k = taken(p, bytes);
    if s.failure is Some {
        Run { state: drop_carry(s.state), deliveries: Seq::empty(), failure: s.failure }
    } else if k <= 0 || k > bytes.len() {
        Run { state: with_carry(p, bytes), deliveries: Seq::empty(), failure: None }
    } else {
        let rest = run(s.state, bytes.subrange(k, bytes.len() as int));
        Run {
            state: rest.state,
            deliveries: delivered(s) + rest.deliveries,
            failure: rest.failure,
        }
    }
}

/// What is looked at when bytes were left over: the bytes left over and
/// as much of the new piece as the longest record leaves room for.
pub open spec fn window(carry: Seq<u8>, chunk: Seq<u8>) -> Seq<u8> {
    if chunk.len() <= MAX_MESSAGE_SIZE - carry.len() {
        carry + chunk
    } else {
        carry + chunk.subrange(0, MAX_MESSAGE_SIZE - carry.len())
    }
}

/// Whether a piece is lost: bytes were left over, and with the new
/// piece there is still no whole frame in the window.
pub open spec fn drops(p: ParserView, chunk: Seq<u8>) -> bool {
    p.carry.len() > 0 && frame(p.status == ParseStatus::Beginning, window(p.carry, chunk))
        is NeedMore
}

/// What taking in one piece of the log does. With nothing left over the
/// piece is read frame by frame. With bytes left over, the first frame is
/// looked for in the window; where there is none the piece is dropped and
/// all stays as it was; else the bytes left over and the piece are read
/// frame by frame as one.
pub open spec fn consume(p: ParserView, chunk: Seq<u8>) -> Run {
    if p.carry.len() == 0 {
        run(p, chunk)
    } else if drops(p, chunk) {
        Run { state: p, deliveries: Seq::empty(), failure: None }
    } else {
        run(drop_carry(p), p.carry + chunk)
    }
}

/// Whether the bytes left over are the start of a frame that is not whole.
pub open spec fn waiting(p: ParserView) -> bool {
    frame(p.status == ParseStatus::Beginning, p.carry) is NeedMore
}

/// Whether the fields of every flattened format lie one behind the other
/// within the length of its record, behind the message id.
pub open spec fn orderly(d: DataFormatView) -> bool {
    &&& forall|i: int|
        0 <= i < d.table.len() ==> 2 <= (#[trigger] d.table[i]).size && laid_out(
            d.table[i].fields,
            2,
            d.table[i].size as int,
        )
    &&& forall|id: u16| #[trigger]
        d.registered.contains_key(id) ==> 2 <= d.registered[id].0.size && laid_out(
            d.registered[id].0.fields,
            2,
            d.registered[id].0.size as int,
        )
}

/// Whether message ids are bound in the data section only, and to
/// formats whose fields lie within their records.
pub open spec fn tidy(p: ParserView) -> bool {
    &&& p.status != ParseStatus::InData ==> p.data_format.registered == Map::<
        u16,
        (FlattenedFormatView, MultiId),
    >::empty()
    &&& orderly(p.data_format)
}

/// Whether a data record that was handed out is one of the format that
/// its message id is bound to.
pub open spec fn fits(d: DataFormatView, delivery: DeliveryView) -> bool {
    delivery matches DeliveryView::Data { msg_id, multi_id, data } ==> d.registered.contains_key(
        msg_id,
    ) && d.registered[msg_id].0.size == data.len() && d.registered[msg_id].1 == multi_id
}

/// Whether every binding of `a` is a binding of `b`.
pub open spec fn extends(a: DataFormatView, b: DataFormatView) -> bool {
    forall|id: u16| #[trigger]
        a.registered.contains_key(id) ==> b.registered.contains_key(id) && b.registered[id]
            == a.registered[id]
}

/// A frame that is whole stays what it is when more bytes come behind it.
pub proof fn lemma_frame_grows(beginning: bool, x: Seq<u8>, y: Seq<u8>)
    requires
        !(frame(beginning, x) is NeedMore),
    ensures
        frame(beginning, x + y) == frame(beginning, x),
{
    reveal(frame);
    let z = x + y;
    if beginning {
        assert(z.subrange(0, 7) =~= x.subrange(0, 7));
        assert(z.subrange(8, 16) =~= x.subrange(8, 16));
        assert(z[7] == x[7]);
    } else {
        assert(z.subrange(0, 2) =~= x.subrange(0, 2));
        let size = le_value(x.subrange(0, 2)) as int;
        assert(z.subrange(3, 3 + size) =~= x.subrange(3, 3 + size));
        assert(z[2] == x[2]);
    }
}

/// A frame is no longer than the longest record, and no longer than the
/// bytes it was found in.
pub proof fn lemma_frame_len(beginning: bool, bytes: Seq<u8>)
    ensures
        0 <= frame_len(frame(beginning, bytes)) <= bytes.len(),
        frame_len(frame(beginning, bytes)) <= MAX_MESSAGE_SIZE,
        frame(beginning, bytes) is NeedMore ==> bytes.len() <= MAX_MESSAGE_SIZE,
        frame(beginning, bytes) is Header || frame(beginning, bytes) is Record ==> frame_len(
            frame(beginning, bytes),
        ) > 0,
{
    reveal(frame);
    if !beginning && bytes.len() >= 3 {
        lemma_le_value_bound(bytes.subrange(0, 2));
        lemma_pow256();
    }
}

/// A frame that is found once bytes have come behind bytes that held no
/// whole frame reaches to the end of those bytes at least.
pub proof fn lemma_frame_reaches(beginning: bool, x: Seq<u8>, y: Seq<u8>)
    requires
        frame(beginning, x) is NeedMore,
    ensures
        frame(beginning, x + y) is NeedMore || frame(beginning, x + y) is BadMagic || frame_len(
            frame(beginning, x + y),
        ) >= x.len(),
{
    reveal(frame);
    let z = x + y;
    if !beginning && x.len() >= 3 && z.len() >= 3 {
        assert(z.subrange(0, 2) =~= x.subrange(0, 2));
    }
}

/// A step keeps the bindings that there are, and hands out only what
/// fits the bindings.
pub proof fn lemma_step_registrations(p: ParserView, bytes: Seq<u8>)
    requires
        tidy(p),
    ensures
        tidy(step(p, bytes).state),
        extends(p.data_format, step(p, bytes).state.data_format),
        step(p, bytes).delivery matches Some(d) ==> fits(step(p, bytes).state.data_format, d),
        step(p, bytes).state.carry == p.carry,
        step(p, bytes).failure is Some ==> step(p, bytes).delivery is None,
{
    reveal(dispatch);
    reveal(frame);
    lemma_table_layout(p.formats, p.formats.len() as int);
    match frame(p.status == ParseStatus::Beginning, bytes) {
        Frame::Record { tag, payload } => {
            let q = enter_data_section(p, MessageType::AddLoggedMessage).state;
            if payload.len() >= 3 {
                lemma_position(
                    q.data_format.table,
                    decode_utf8(payload.subrange(3, payload.len() as int)),
                );
            }
        },
        _ => {},
    }
}

/// With bytes left over that hold no whole frame, the first frame in the
/// window is the first frame of the bytes left over and the whole piece,
/// and it reaches into the piece, or ends where the piece begins.
pub proof fn lemma_first_frame(p: ParserView, chunk: Seq<u8>)
    requires
        waiting(p),
        p.carry.len() > 0,
        !drops(p, chunk),
    ensures
        step(drop_carry(p), p.carry + chunk) == step(drop_carry(p), window(p.carry, chunk)),
        taken(p, p.carry + chunk) == taken(p, window(p.carry, chunk)),
        step(drop_carry(p), p.carry + chunk).failure is None ==> p.carry.len() <= taken(
            p,
            p.carry + chunk,
        ) <= window(p.carry, chunk).len(),
        step(drop_carry(p), p.carry + chunk).failure is None ==> taken(p, p.carry + chunk) > 0,
        window(p.carry, chunk).len() <= MAX_MESSAGE_SIZE,
{
    let beginning = p.status == ParseStatus::Beginning;
    let w = window(p.carry, chunk);
    lemma_frame_len(beginning, p.carry);
    lemma_frame_len(beginning, w);
    if chunk.len() <= MAX_MESSAGE_SIZE - p.carry.len() {
        lemma_frame_reaches(beginning, p.carry, chunk);
    } else {
        let head = chunk.subrange(0, MAX_MESSAGE_SIZE - p.carry.len());
        let rest = chunk.subrange(MAX_MESSAGE_SIZE - p.carry.len(), chunk.len() as int);
        lemma_frame_reaches(beginning, p.carry, head);
        lemma_frame_grows(beginning, w, rest);
        assert(w + rest =~= p.carry + chunk);
    }
    reveal(frame);
}

/// Reading keeps the bindings that there are, and every data record
/// that it hands out fits the bindings at the end.
pub proof fn lemma_run_registrations(p: ParserView, bytes: Seq<u8>)
    requires
        tidy(p),
    ensures
        tidy(run(p, bytes).state),
        extends(p.data_format, run(p, bytes).state.data_format),
        forall|i: int|
            0 <= i < run(p, bytes).deliveries.len() ==> fits(
                run(p, bytes).state.data_format,
                #[trigger] run(p, bytes).deliveries[i],
            ),
    decreases bytes.len(),
{
    let s = step(p, bytes);
    let k = taken(p, bytes);
    lemma_step_registrations(p, bytes);
    if s.failure is None && 0 < k <= bytes.len() {
        let tail = bytes.subrange(k, bytes.len() as int);
        lemma_run_registrations(s.state, tail);
        let rest = run(s.state, tail);
        let r = run(p, bytes);
        assert forall|i: int| 0 <= i < r.deliveries.len() implies fits(
            r.state.data_format,
            #[trigger] r.deliveries[i],
        ) by {
            if i < delivered(s).len() {
                assert(r.deliveries[i] == s.delivery->Some_0);
            } else {
                assert(r.deliveries[i] == rest.deliveries[i - delivered(s).len()]);
            }
        }
    }
}

/// After reading, what is left over holds no whole frame.
pub proof fn lemma_run_waiting(p: ParserView, bytes: Seq<u8>)
    ensures
        waiting(run(p, bytes).state),
    decreases bytes.len(),
{
    let s = step(p, bytes);
    let k = taken(p, bytes);
    lemma_frame_len(p.status == ParseStatus::Beginning, bytes);
    if s.failure is None && 0 < k <= bytes.len() {
        lemma_run_waiting(s.state, bytes.subrange(k, bytes.len() as int));
    } else {
        reveal(frame);
    }
}

/// What holds of the items handed out holds of the items at the end of
/// the list that they were put behind.
pub proof fn lemma_fits_all(
    d: DataFormatView,
    before: Seq<Delivery>,
    after: Seq<Delivery>,
    added: Seq<DeliveryView>,
)
    requires
        views(after) =~= views(before) + added,
        forall|i: int| 0 <= i < added.len() ==> fits(d, #[trigger] added[i]),
    ensures
        forall|i: int| before.len() <= i < after.len() ==> fits(d, #[trigger] after[i]@),
{
    assert forall|i: int| before.len() <= i < after.len() implies fits(d, #[trigger] after[i]@) by {
        assert(views(after)[i] == after[i]@);
        assert(views(before).len() == before.len());
        assert(views(after).len() == after.len());
        assert((views(before) + added)[i] == added[i - before.len()]);
    }
}

/// Whether what `consume_bytes` returned and did is what `c` says.
pub open spec fn consumed(
    c: Run,
    r: Result<(), UlogParseError>,
    after: ParserView,
    before_list: Seq<Delivery>,
    after_list: Seq<Delivery>,
) -> bool {
    &&& after == c.state
    &&& views(after_list) =~= views(before_list) + c.deliveries
    &&& match r {
        Ok(_) => c.failure is None,
        Err(e) => c.failure == Some(failure_of(e)),
    }
}

fn state_name(status: ParseStatus) -> (r: &'static str)
    ensures
        r@ == status_text(status),
{
    match status {
        ParseStatus::Beginning => "Beginning",
        ParseStatus::AfterHeader => "AfterHeader",
        ParseStatus::InDefinitions => "InDefinitions",
        ParseStatus::InData => "InData",
    }
}

fn record_name(message_type: MessageType) -> (r: &'static str)
    ensures
        r@ == type_text(message_type),
{
    match message_type {
        MessageType::Unknown => "Unknown",
        MessageType::Format => "Format",
        MessageType::Data => "Data",
        MessageType::Info => "Info",
        MessageType::MultipleInfo => "MultipleInfo",
        MessageType::Parameter => "Parameter",
        MessageType::AddLoggedMessage => "AddLoggedMessage",
        MessageType::RemoveLoggedMessage => "RemoveLoggedMessage",
        MessageType::Sync => "Sync",
        MessageType::Dropout => "Dropout",
        MessageType::Logging => "Logging",
        MessageType::FlagBits => "FlagBits",
    }
}

fn unexpected_record(message_type: MessageType, status: ParseStatus) -> (r: UlogParseError)
    ensures
        r.kind() == ParseErrorType::Other,
        r.text() == unexpected(message_type, status),
{
    let mut text = record_name(message_type).to_owned();
    text.append(" encountered in ");
    text.append(state_name(status));
    UlogParseError::other(text)
}

/// Whether `buf` begins with the seven bytes that a log begins with.
pub fn begins_with_magic(buf: &[u8]) -> (r: bool)
    requires
        buf@.len() >= 7,
    ensures
        r == (buf@.subrange(0, 7) == magic()),
{
    let r = buf[0] == 0x55 && buf[1] == 0x4C && buf[2] == 0x6F && buf[3] == 0x67 && buf[4] == 0x01
        && buf[5] == 0x12 && buf[6] == 0x35;
    proof {
        let head = buf@.subrange(0, 7);
        if r {
            assert(head =~= magic());
        } else {
            assert(head[0] == buf@[0] && head[1] == buf@[1] && head[2] == buf@[2] && head[3]
                == buf@[3] && head[4] == buf@[4] && head[5] == buf@[5] && head[6] == buf@[6]);
        }
    }
    r
}

impl LoggedString {
    /// The logged line that a payload of nine bytes or more holds, with
    /// `logged_message` as the text that its bytes from the ninth on
    /// were read as.
    pub fn from_payload(payload: &[u8], logged_message: String) -> (r: Self)
        requires
            payload@.len() >= 9,
        ensures
            r.log_level == payload@[0],
            r.timestamp == le_value(payload@.subrange(1, 9)),
            r.logged_message@ == logged_message@,
    {
        let log_level = payload[0];
        let timestamp = as_u64_le(slice_subrange(payload, 1, 9));
        LoggedString { log_level, timestamp, logged_message }
    }
}

impl LogParser {
    /// A parser that has read nothing.
    pub fn new() -> (r: Self)
        ensures
            r@ == fresh(),
    {
        let message_formats: Vec<Format> = Vec::new();
        assert(views(message_formats@) =~= Seq::<FormatView>::empty());
        LogParser {
            version: 0,
            timestamp: 0,
            leftover: Vec::new(),
            message_formats,
            flattened_format: DataFormat::default(),
            status: ParseStatus::Beginning,
        }
    }

    /// The flattened formats and the bound message ids as they stand.
    pub fn data_format(&self) -> (r: &DataFormat)
        ensures
            r@ == self@.data_format,
            self.wf() ==> r.wf(),
    {
        &self.flattened_format
    }

    /// Where in the log the parser is.
    pub fn status(&self) -> (r: ParseStatus)
        ensures
            r == self@.status,
    {
        self.status
    }

    /// The version byte of the file header, once it has been read.
    pub fn version(&self) -> (r: u8)
        ensures
            r == self@.version,
    {
        self.version
    }

    /// The time at which the log was started, once the file header has
    /// been read.
    pub fn timestamp(&self) -> (r: u64)
        ensures
            r == self@.timestamp,
    {
        self.timestamp
    }

    /// The number of bytes that are left over.
    pub fn pending(&self) -> (r: usize)
        ensures
            r == self@.carry.len(),
    {
        self.leftover.len()
    }

    /// The flattened formats and the bound message ids, once the log has
    /// been read. What is left of an unfinished record is dropped.
    pub fn get_final_data_format(self) -> (r: DataFormat)
        ensures
            r@ == self@.data_format,
            self.wf() ==> r.wf(),
    {
        self.flattened_format
    }

    /// Goes over to the data section, unless the parser is in it: the
    /// formats that were defined are flattened.
    pub fn transition_to_data_section_if_necessary(&mut self, message_type: MessageType) -> (r:
        Result<(), UlogParseError>)
        ensures
            final(self)@ == enter_data_section(old(self)@, message_type).state,
            match r {
                Ok(_) => enter_data_section(old(self)@, message_type).failure is None,
                Err(e) => enter_data_section(old(self)@, message_type).failure == Some(
                    failure_of(e),
                ),
            },
    {
        if !(self.status == ParseStatus::InDefinitions || self.status == ParseStatus::InData) {
            return Err(unexpected_record(message_type, self.status));
        }
        if self.status == ParseStatus::InDefinitions {
            match flatten_format(&self.message_formats) {
                Ok(table) => {
                    self.flattened_format = DataFormat::new(table);
                    self.status = ParseStatus::InData;
                },
                Err(e) => {
                    return Err(e);
                },
            }
        }
        Ok(())
    }

    /// Takes one framed record.
    pub fn parse_message(&mut self, msg: ULogMessage, deliveries: &mut Vec<Delivery>) -> (r: Result<
        (),
        UlogParseError,
    >)
        ensures
            stepped(
                dispatch(old(self)@, msg.tag(), msg.payload()),
                r,
                final(self)@,
                old(deliveries)@,
                final(deliveries)@,
            ),
    {
        reveal(dispatch);
        let data = msg.data();
        match msg.msg_type() {
            MessageType::FlagBits => {
                if self.status != ParseStatus::AfterHeader {
                    return Err(
                        UlogParseError::new(ParseErrorType::Other, "flag bits at bad position"),
                    );
                }
                self.status = ParseStatus::InDefinitions;
            },
            MessageType::Format => {
                if !(self.status == ParseStatus::InDefinitions || self.status
                    == ParseStatus::InData) {
                    return Err(unexpected_record(MessageType::Format, self.status));
                }
                let format = match parse_format(&msg) {
                    Ok(format) => format,
                    Err(e) => {
                        return Err(e);
                    },
                };
                if find_format(&self.message_formats, format.message_name.as_str()).is_some() {
                    let mut text = "duplicate message definition: ".to_owned();
                    text.append(format.message_name.as_str());
                    return Err(UlogParseError::other(text));
                }
                assert(views(self.message_formats@.push(format)) =~= views(
                    self.message_formats@,
                ).push(format@));
                self.message_formats.push(format);
            },
            MessageType::AddLoggedMessage => {
                match self.transition_to_data_section_if_necessary(MessageType::AddLoggedMessage) {
                    Ok(_) => {},
                    Err(e) => {
                        return Err(e);
                    },
                }
                if data.len() < 3 {
                    return Err(
                        UlogParseError::new(
                            ParseErrorType::Other,
                            "add logged message was too short",
                        ),
                    );
                }
                let multi_id = data[0];
                let msg_id = as_u16_le(slice_subrange(data, 1, 3));
                let message_name = match core::str::from_utf8(slice_subrange(data, 3, data.len())) {
                    Ok(message_name) => message_name,
                    Err(_) => {
                        return Err(
                            UlogParseError::new(
                                ParseErrorType::Other,
                                "format message is not a string",
                            ),
                        );
                    },
                };
                proof {
                    crate::text::lemma_chars_of_bytes(message_name);
                }
                match self.flattened_format.register_msg_id(msg_id, message_name, multi_id) {
                    Ok(_) => {},
                    Err(e) => {
                        return Err(e);
                    },
                }
            },
            MessageType::Logging => {
                match self.transition_to_data_section_if_necessary(MessageType::Logging) {
                    Ok(_) => {},
                    Err(e) => {
                        return Err(e);
                    },
                }
                if data.len() < 9 {
                    return Err(
                        UlogParseError::new(
                            ParseErrorType::Other,
                            "Logged string message was too short",
                        ),
                    );
                }
                // What is not UTF-8 in the line is replaced: a line in
                // part is better than none.
                let logged_message = from_utf8_lossy(slice_subrange(data, 9, data.len()));
                let line = LoggedString::from_payload(data, logged_message);
                assert(views(deliveries@.push(Delivery::LoggedMessage(line))) =~= views(
                    deliveries@,
                ).push(Delivery::LoggedMessage(line)@));
                deliveries.push(Delivery::LoggedMessage(line));
            },
            MessageType::Data => {
                if self.status != ParseStatus::InData {
                    return Err(
                        UlogParseError::new(
                            ParseErrorType::Other,
                            "data message encountered before data section was started",
                        ),
                    );
                }
                if data.len() < 2 {
                    return Err(
                        UlogParseError::new(
                            ParseErrorType::Other,
                            "encountered data message which was too short",
                        ),
                    );
                }
                let msg_id = as_u16_le(slice_subrange(data, 0, 2));
                let (size, multi_id) = match self.flattened_format.get_message_description(msg_id) {
                    Some(description) => (description.0.size(), description.1),
                    None => {
                        let mut text = "data message encountered unregistered msg_id: ".to_owned();
                        append_decimal(&mut text, msg_id);
                        return Err(UlogParseError::other(text));
                    },
                };
                if size != msg.size() {
                    let mut text = "data message had wrong size ".to_owned();
                    append_decimal(&mut text, msg.size());
                    return Err(UlogParseError::other(text));
                }
                let record = DataRecord { msg_id, multi_id, data: vstd::slice::slice_to_vec(data) };
                assert(views(deliveries@.push(Delivery::Data(record))) =~= views(deliveries@).push(
                    Delivery::Data(record)@,
                ));
                deliveries.push(Delivery::Data(record));
            },
            _ => {},
        }
        Ok(())
    }

    /// Whether the parser is in order: what is left over holds no whole
    /// frame, and message ids are bound in the data section only.
    pub open spec fn wf(&self) -> bool {
        waiting(self@) && tidy(self@)
    }

    /// Takes in the next piece of the log, and puts behind `deliveries`
    /// what its records hand out, in their order. What is left of the
    /// piece behind its last whole record is kept for the next call; a
    /// record counts as whole once a byte has come behind it. A piece
    /// that comes while bytes are left over must bring the rest of their
    /// frame: else the piece is dropped, and all stays as it was. A
    /// failure ends the reading; what was left over is dropped then.
    pub fn consume_bytes(&mut self, buf: &[u8], deliveries: &mut Vec<Delivery>) -> (r: Result<
        (),
        UlogParseError,
    >)
        requires
            old(self).wf(),
        ensures
            final(self).wf(),
            consumed(
                consume(old(self)@, buf@),
                r,
                final(self)@,
                old(deliveries)@,
                final(deliveries)@,
            ),
            forall|i: int|
                old(deliveries)@.len() <= i < final(deliveries)@.len() ==> fits(
                    final(self)@.data_format,
                    #[trigger] final(deliveries)@[i]@,
                ),
            extends(old(self)@.data_format, final(self)@.data_format),
    {
        let ghost before = self@;
        let ghost carry = self.leftover@;
        let ghost total = carry + buf@;
        let ghost base = drop_carry(before);
        let ghost target = run(base, total);
        let ghost mut got: Seq<DeliveryView> = Seq::empty();
        let mut pos: usize = 0;
        proof {
            lemma_run_registrations(base, total);
            lemma_run_waiting(base, total);
            lemma_frame_len(before.status == ParseStatus::Beginning, carry);
        }
        if !self.leftover.is_empty() {
            let leftover_len_before = self.leftover.len();
            let room = MAX_MESSAGE_SIZE - self.leftover.len();
            let bytes_to_copy = if buf.len() < room {
                buf.len()
            } else {
                room
            };
            self.leftover.extend_from_slice(slice_subrange(buf, 0, bytes_to_copy));
            assert(self.leftover@ =~= window(carry, buf@));
            // The bytes are taken out of the parser while it reads them.
            let mut leftover: Vec<u8> = Vec::new();
            core::mem::swap(&mut leftover, &mut self.leftover);
            assert(self@ == base);
            proof {
                lemma_step_registrations(base, leftover@);
                if !drops(before, buf@) {
                    lemma_first_frame(before, buf@);
                }
            }
            let leftover_bytes_used = match self.parse_single_entry(leftover.as_slice(), deliveries) {
                Ok(used) => used,
                Err(e) => {
                    proof {
                        assert(drops(before, buf@) ==> step(base, leftover@).failure is None) by {
                            reveal(frame);
                        }
                        lemma_fits_all(
                            self@.data_format,
                            old(deliveries)@,
                            deliveries@,
                            target.deliveries,
                        );
                    }
                    return Err(e);
                },
            };
            if leftover_bytes_used == 0 {
                // No whole frame yet: the bytes left over stay, the piece is dropped.
                proof {
                    lemma_frame_len(before.status == ParseStatus::Beginning, leftover@);
                    assert(drops(before, buf@)) by {
                        reveal(frame);
                    }
                }
                leftover.truncate(leftover_len_before);
                assert(leftover@ =~= carry);
                self.leftover = leftover;
                assert(self@ == before);
                assert(views(deliveries@) =~= views(old(deliveries)@) + Seq::<DeliveryView>::empty());
                return Ok(());
            }
            proof {
                assert(!drops(before, buf@)) by {
                    reveal(frame);
                }
            }
            // The bytes left over held no whole frame, so the frame reaches into
            // the piece, or ends where the piece begins.
            pos = leftover_bytes_used - leftover_len_before;
            proof {
                got = delivered(step(base, leftover@));
                assert(total.subrange(leftover_bytes_used as int, total.len() as int)
                    =~= buf@.subrange(pos as int, buf@.len() as int));
                assert(consume(before, buf@) == target);
            }
        } else {
            proof {
                assert(total =~= buf@);
                assert(base == before);
                assert(buf@.subrange(0, buf@.len() as int) =~= buf@);
                assert(views(deliveries@) =~= views(old(deliveries)@) + got);
                let r = run(self@, buf@.subrange(pos as int, buf@.len() as int));
                assert(got + r.deliveries =~= r.deliveries);
                assert(consume(before, buf@) == target);
            }
        }
        loop
            invariant
                pos <= buf@.len(),
                self@.carry == Seq::<u8>::empty(),
                tidy(self@),
                before == old(self)@,
                consume(before, buf@) == target,
                waiting(target.state),
                tidy(target.state),
                extends(before.data_format, target.state.data_format),
                forall|i: int|
                    0 <= i < target.deliveries.len() ==> fits(
                        target.state.data_format,
                        #[trigger] target.deliveries[i],
                    ),
                views(deliveries@) =~= views(old(deliveries)@) + got,
                target == (Run {
                    state: run(self@, buf@.subrange(pos as int, buf@.len() as int)).state,
                    deliveries: got + run(
                        self@,
                        buf@.subrange(pos as int, buf@.len() as int),
                    ).deliveries,
                    failure: run(self@, buf@.subrange(pos as int, buf@.len() as int)).failure,
                }),
            decreases buf@.len() - pos,
        {
            let rest = slice_subrange(buf, pos, buf.len());
            let ghost here = self@;
            proof {
                lemma_frame_len(here.status == ParseStatus::Beginning, rest@);
                lemma_step_registrations(here, rest@);
            }
            let num_bytes_consumed = match self.parse_single_entry(rest, deliveries) {
                Ok(used) => used,
                Err(e) => {
                    proof {
                        assert(got + Seq::<DeliveryView>::empty() =~= got);
                        assert(self@ == drop_carry(step(here, rest@).state));
                        lemma_fits_all(
                            self@.data_format,
                            old(deliveries)@,
                            deliveries@,
                            target.deliveries,
                        );
                    }
                    return Err(e);
                },
            };
            if num_bytes_consumed == 0 {
                self.leftover.extend_from_slice(rest);
                proof {
                    assert(self.leftover@ =~= rest@);
                    assert(self@ == with_carry(here, rest@));
                    assert(got + Seq::<DeliveryView>::empty() =~= got);
                    lemma_fits_all(
                        self@.data_format,
                        old(deliveries)@,
                        deliveries@,
                        target.deliveries,
                    );
                }
                return Ok(());
            }
            proof {
                let s = step(here, rest@);
                let tail = run(s.state, rest@.subrange(num_bytes_consumed as int, rest@.len() as int));
                assert(rest@.subrange(num_bytes_consumed as int, rest@.len() as int)
                    =~= buf@.subrange(pos + num_bytes_consumed, buf@.len() as int));
                assert(got + (delivered(s) + tail.deliveries) =~= (got + delivered(s))
                    + tail.deliveries);
                got = got + delivered(s);
            }
            pos = pos + num_bytes_consumed;
        }
    }

    /// Takes the header or one record from the start of `buf`, if `buf`
    /// holds a whole one, and says how many bytes it took.
    pub fn parse_single_entry(&mut self, buf: &[u8], deliveries: &mut Vec<Delivery>) -> (r: Result<
        usize,
        UlogParseError,
    >)
        ensures
            stepped(
                step(old(self)@, buf@),
                match r {
                    Ok(_) => Ok(()),
                    Err(e) => Err(e),
                },
                final(self)@,
                old(deliveries)@,
                final(deliveries)@,
            ),
            r matches Ok(k) ==> k == taken(old(self)@, buf@) && k <= buf@.len(),
    {
        reveal(frame);
        if self.status == ParseStatus::Beginning {
            if buf.len() < 16 {
                return Ok(0);
            }
            if !begins_with_magic(buf) {
                return Err(
                    UlogParseError::new(
                        ParseErrorType::InvalidFile,
                        "The header does not match the template",
                    ),
                );
            }
            self.version = buf[7];
            self.timestamp = as_u64_le(slice_subrange(buf, 8, 16));
            self.status = ParseStatus::AfterHeader;
            return Ok(16);
        }
        if buf.len() < 3 {
            return Ok(0);
        }
        let msg_size = as_u16_le(slice_subrange(buf, 0, 2));
        let msg_type = buf[2];
        let consumed_len = msg_size as usize + 3;
        if buf.len() <= consumed_len {
            return Ok(0);
        }
        let msg = ULogMessage::new(msg_type, slice_subrange(buf, 3, consumed_len));
        match self.parse_message(msg, deliveries) {
            Ok(_) => Ok(consumed_len),
            Err(e) => Err(e),
        }
    }
}

impl Default for LogParser {
    fn default() -> (r: Self)
        ensures
            r@ == fresh(),
    {
        LogParser::new()
    }
}

} // verus!
