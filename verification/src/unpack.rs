use crate::stream_parser::model::{ParseErrorType, UlogParseError};
use vstd::prelude::*;
use vstd::string::*;
use vstd::utf8::*;

verus! {

/// The number that the bytes of `s` spell when read least significant
/// byte first.
pub open spec fn le_value(s: Seq<u8>) -> nat
    decreases s.len(),
{
    if s.len() == 0 {
        0
    } else {
        (s[0] as nat) + 256 * le_value(s.drop_first())
    }
}

/// 256 to the power `n`.
pub open spec fn pow256(n: nat) -> nat
    decreases n,
{
    if n == 0 {
        1
    } else {
        256 * pow256((n - 1) as nat)
    }
}

/// The signed number that the unsigned `value` stands for in two's
/// complement of `bytes` bytes.
pub open spec fn twos_complement(value: nat, bytes: nat) -> int {
    if 2 * value < pow256(bytes) {
        value as int
    } else {
        value - pow256(bytes)
    }
}

pub proof fn lemma_pow256()
    ensures
        pow256(0) == 1,
        pow256(1) == 0x100,
        pow256(2) == 0x1_0000,
        pow256(3) == 0x100_0000,
        pow256(4) == 0x1_0000_0000,
        pow256(5) == 0x100_0000_0000,
        pow256(6) == 0x1_0000_0000_0000,
        pow256(7) == 0x100_0000_0000_0000,
        pow256(8) == 0x1_0000_0000_0000_0000,
{
    reveal_with_fuel(pow256, 10);
}

/// As many bytes spell a number below 256 to their count.
pub proof fn lemma_le_value_bound(s: Seq<u8>)
    ensures
        le_value(s) < pow256(s.len()),
    decreases s.len(),
{
    if s.len() > 0 {
        lemma_le_value_bound(s.drop_first());
    }
}

/// The little-endian number of at most eight bytes.
fn le_number(arr: &[u8]) -> (r: u64)
    requires
        arr@.len() <= 8,
    ensures
        r == le_value(arr@),
{
    let mut value: u64 = 0;
    let mut i: usize = arr.len();
    assert(arr@.subrange(i as int, arr@.len() as int) =~= Seq::<u8>::empty());
    while i > 0
        invariant
            i <= arr@.len() <= 8,
            value == le_value(arr@.subrange(i as int, arr@.len() as int)),
        decreases i,
    {
        proof {
            let tail = arr@.subrange(i as int, arr@.len() as int);
            let next = arr@.subrange(i - 1, arr@.len() as int);
            assert(next.drop_first() =~= tail);
            lemma_le_value_bound(tail);
            lemma_le_value_bound(next);
            lemma_pow256();
            assert(pow256(tail.len()) <= pow256(7)) by {
                lemma_pow256_grows(tail.len(), 7);
            }
        }
        i -= 1;
        value = value * 256 + arr[i] as u64;
    }
    assert(arr@.subrange(0, arr@.len() as int) =~= arr@);
    value
}

pub proof fn lemma_pow256_grows(a: nat, b: nat)
    requires
        a <= b,
    ensures
        pow256(a) <= pow256(b),
    decreases b,
{
    if a < b {
        lemma_pow256_grows(a, (b - 1) as nat);
    }
}

/// Reads up to eight bytes as an unsigned number, least significant byte
/// first.
pub fn as_u64_le(arr: &[u8]) -> (r: u64)
    requires
        arr@.len() <= 8,
    ensures
        r == le_value(arr@),
{
    le_number(arr)
}

/// Reads up to four bytes as an unsigned number, least significant byte
/// first.
pub fn as_u32_le(arr: &[u8]) -> (r: u32)
    requires
        arr@.len() <= 4,
    ensures
        r == le_value(arr@),
{
    proof {
        lemma_le_value_bound(arr@);
        lemma_pow256();
        lemma_pow256_grows(arr@.len(), 4);
    }
    le_number(arr) as u32
}

/// Reads up to four bytes as a number, least significant byte first; four
/// bytes are read in two's complement.
pub fn as_i32_le(arr: &[u8]) -> (r: i32)
    requires
        arr@.len() <= 4,
    ensures
        r == twos_complement(le_value(arr@), 4),
{
    proof {
        lemma_pow256();
    }
    let value = as_u32_le(arr);
    if value < 0x8000_0000 {
        value as i32
    } else {
        (value - 0x8000_0000) as i32 + i32::MIN
    }
}

/// Reads up to two bytes as an unsigned number, least significant byte
/// first.
pub fn as_u16_le(arr: &[u8]) -> (r: u16)
    requires
        arr@.len() <= 2,
    ensures
        r == le_value(arr@),
{
    proof {
        lemma_le_value_bound(arr@);
        lemma_pow256();
        lemma_pow256_grows(arr@.len(), 2);
    }
    le_number(arr) as u16
}

pub open spec fn not_text() -> Seq<char> {
    "data is not a string"@
}

/// Reads bytes as text: they must be well-formed UTF-8.
pub fn as_str(arr: &[u8]) -> (r: Result<&str, UlogParseError>)
    ensures
        match r {
            Ok(s) => valid_utf8(arr@) && s@ == decode_utf8(arr@),
            Err(e) => !valid_utf8(arr@) && e.kind() == ParseErrorType::Other && e.text()
                == not_text(),
        },
{
    match core::str::from_utf8(arr) {
        Ok(s) => {
            proof {
                crate::text::lemma_chars_of_bytes(s);
            }
            Ok(s)
        },
        Err(_) => Err(UlogParseError::new(ParseErrorType::Other, "data is not a string")),
    }
}

} // verus!
