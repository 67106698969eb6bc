use crate::models::message::ULogMessage;
use crate::unpack::{as_u16_le, le_value};
use vstd::prelude::*;

verus! {

/// The length of the file header: the first record stands behind it.
pub const HEADER_SIZE: u64 = 16;

/// The record whose three header bytes stand at `position` in the file,
/// and the place of the header behind it.
pub fn message_at(position: u64, size: &[u8], msg_type: u8) -> (r: (ULogMessage, u64))
    requires
        size@.len() == 2,
        position + le_value(size@) + 3 <= u64::MAX,
    ensures
        r.0 == (ULogMessage {
            msg_type,
            msg_size: le_value(size@) as u16,
            msg_pos: (position + 3) as u64,
        }),
        r.1 == position + le_value(size@) + 3,
{
    let msg_size = as_u16_le(size);
    let msg_pos = position + 3;
    (ULogMessage::new(msg_type, msg_size, msg_pos), position + (msg_size as u64 + 3))
}

} // verus!
