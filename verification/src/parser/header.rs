use crate::stream_parser::parser::{begins_with_magic, magic};
use vstd::prelude::*;

verus! {

/// Whether what was read from the start of a file shows it to be a log:
/// seven bytes were read, and they are the seven bytes that a log begins
/// with.
pub fn is_ulog_header(buffer: &[u8], bytes: usize) -> (r: bool)
    ensures
        r == (bytes == 7 && buffer@ == magic()),
{
    if bytes != 7 || buffer.len() != 7 {
        return false;
    }
    assert(buffer@.subrange(0, 7) =~= buffer@);
    begins_with_magic(buffer)
}

} // verus!
