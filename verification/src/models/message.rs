pub use crate::stream_parser::model::MessageType;
use crate::stream_parser::model::message_type_of;
use vstd::prelude::*;

verus! {

/// Where a record stands in a log file: its type byte, the length of its
/// payload and the place in the file where the payload begins.
#[derive(Clone, Copy, Debug, PartialEq, Eq, Structural)]
pub struct ULogMessage {
    pub msg_type: u8,
    pub msg_size: u16,
    pub msg_pos: u64,
}

impl ULogMessage {
    pub fn new(msg_type: u8, msg_size: u16, msg_pos: u64) -> (r: Self)
        ensures
            r == (ULogMessage { msg_type, msg_size, msg_pos }),
    {
        Self { msg_type, msg_size, msg_pos }
    }

    pub fn msg_type(&self) -> (r: MessageType)
        ensures
            r == message_type_of(self.msg_type),
    {
        match self.msg_type {
            0x46 => MessageType::Format,
            0x44 => MessageType::Data,
            0x49 => MessageType::Info,
            0x4D => MessageType::MultipleInfo,
            0x50 => MessageType::Parameter,
            0x41 => MessageType::AddLoggedMessage,
            0x52 => MessageType::RemoveLoggedMessage,
            0x53 => MessageType::Sync,
            0x4F => MessageType::Dropout,
            0x4C => MessageType::Logging,
            0x42 => MessageType::FlagBits,
            _ => MessageType::Unknown,
        }
    }

    pub fn size(&self) -> (r: u16)
        ensures
            r == self.msg_size,
    {
        self.msg_size
    }

    pub fn position(&self) -> (r: u64)
        ensures
            r == self.msg_pos,
    {
        self.msg_pos
    }
}

} // verus!
