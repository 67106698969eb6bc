use crate::stream_parser::model::FlattenedFieldType;
use crate::unpack::{le_value, lemma_pow256, twos_complement};
use byteorder::ByteOrder;
use vstd::prelude::*;

verus! {

/// `byteorder::LittleEndian::read_u16` reads the first two bytes of `buf`,
/// least significant byte first. It panics on a shorter `buf`.
#[verifier::external_body]
fn read_u16(buf: &[u8]) -> (r: u16)
    requires
        buf@.len() >= 2,
    ensures
        r == le_value(buf@.subrange(0, 2)),
{
    byteorder::LittleEndian::read_u16(buf)
}

/// `byteorder::LittleEndian::read_i16` reads the first two bytes of `buf`,
/// least significant byte first, in two's complement. It panics on a
/// shorter `buf`.
#[verifier::external_body]
fn read_i16(buf: &[u8]) -> (r: i16)
    requires
        buf@.len() >= 2,
    ensures
        r == twos_complement(le_value(buf@.subrange(0, 2)), 2),
{
    byteorder::LittleEndian::read_i16(buf)
}

/// `byteorder::LittleEndian::read_u32` reads the first four bytes of `buf`,
/// least significant byte first. It panics on a shorter `buf`.
#[verifier::external_body]
fn read_u32(buf: &[u8]) -> (r: u32)
    requires
        buf@.len() >= 4,
    ensures
        r == le_value(buf@.subrange(0, 4)),
{
    byteorder::LittleEndian::read_u32(buf)
}

/// `byteorder::LittleEndian::read_i32` reads the first four bytes of `buf`,
/// least significant byte first, in two's complement. It panics on a
/// shorter `buf`.
#[verifier::external_body]
fn read_i32(buf: &[u8]) -> (r: i32)
    requires
        buf@.len() >= 4,
    ensures
        r == twos_complement(le_value(buf@.subrange(0, 4)), 4),
{
    byteorder::LittleEndian::read_i32(buf)
}

/// `byteorder::LittleEndian::read_u64` reads the first eight bytes of
/// `buf`, least significant byte first. It panics on a shorter `buf`.
#[verifier::external_body]
fn read_u64(buf: &[u8]) -> (r: u64)
    requires
        buf@.len() >= 8,
    ensures
        r == le_value(buf@.subrange(0, 8)),
{
    byteorder::LittleEndian::read_u64(buf)
}

/// `byteorder::LittleEndian::read_i64` reads the first eight bytes of
/// `buf`, least significant byte first, in two's complement. It panics on
/// a shorter `buf`.
#[verifier::external_body]
fn read_i64(buf: &[u8]) -> (r: i64)
    requires
        buf@.len() >= 8,
    ensures
        r == twos_complement(le_value(buf@.subrange(0, 8)), 8),
{
    byteorder::LittleEndian::read_i64(buf)
}

/// A type whose values are read from the start of a byte string, least
/// significant byte first.
pub trait LittleEndianParser: Sized {
    /// The number of bytes that a value takes.
    spec fn width() -> nat;

    /// The value that the first `width()` bytes of `bytes` hold.
    spec fn decode(bytes: Seq<u8>) -> Self;

    fn parse(serialized: &[u8]) -> (r: Self)
        requires
            serialized@.len() >= Self::width(),
        ensures
            r == Self::decode(serialized@),
    ;
}

impl LittleEndianParser for i8 {
    open spec fn width() -> nat {
        1
    }

    open spec fn decode(bytes: Seq<u8>) -> i8 {
        twos_complement(bytes[0] as nat, 1) as i8
    }

    fn parse(serialized: &[u8]) -> (r: i8) {
        proof {
            lemma_pow256();
        }
        let byte = serialized[0];
        if byte < 0x80 {
            byte as i8
        } else {
            (byte - 0x80) as i8 + i8::MIN
        }
    }
}

impl LittleEndianParser for u8 {
    open spec fn width() -> nat {
        1
    }

    open spec fn decode(bytes: Seq<u8>) -> u8 {
        bytes[0]
    }

    fn parse(serialized: &[u8]) -> (r: u8) {
        serialized[0]
    }
}

impl LittleEndianParser for i16 {
    open spec fn width() -> nat {
        2
    }

    open spec fn decode(bytes: Seq<u8>) -> i16 {
        twos_complement(le_value(bytes.subrange(0, 2)), 2) as i16
    }

    fn parse(serialized: &[u8]) -> (r: i16) {
        read_i16(serialized)
    }
}

impl LittleEndianParser for u16 {
    open spec fn width() -> nat {
        2
    }

    open spec fn decode(bytes: Seq<u8>) -> u16 {
        le_value(bytes.subrange(0, 2)) as u16
    }

    fn parse(serialized: &[u8]) -> (r: u16) {
        read_u16(serialized)
    }
}

impl LittleEndianParser for i32 {
    open spec fn width() -> nat {
        4
    }

    open spec fn decode(bytes: Seq<u8>) -> i32 {
        twos_complement(le_value(bytes.subrange(0, 4)), 4) as i32
    }

    fn parse(serialized: &[u8]) -> (r: i32) {
        read_i32(serialized)
    }
}

impl LittleEndianParser for u32 {
    open spec fn width() -> nat {
        4
    }

    open spec fn decode(bytes: Seq<u8>) -> u32 {
        le_value(bytes.subrange(0, 4)) as u32
    }

    fn parse(serialized: &[u8]) -> (r: u32) {
        read_u32(serialized)
    }
}

impl LittleEndianParser for i64 {
    open spec fn width() -> nat {
        8
    }

    open spec fn decode(bytes: Seq<u8>) -> i64 {
        twos_complement(le_value(bytes.subrange(0, 8)), 8) as i64
    }

    fn parse(serialized: &[u8]) -> (r: i64) {
        read_i64(serialized)
    }
}

impl LittleEndianParser for u64 {
    open spec fn width() -> nat {
        8
    }

    open spec fn decode(bytes: Seq<u8>) -> u64 {
        le_value(bytes.subrange(0, 8)) as u64
    }

    fn parse(serialized: &[u8]) -> (r: u64) {
        read_u64(serialized)
    }
}

impl LittleEndianParser for bool {
    open spec fn width() -> nat {
        1
    }

    open spec fn decode(bytes: Seq<u8>) -> bool {
        bytes[0] != 0
    }

    fn parse(serialized: &[u8]) -> (r: bool) {
        serialized[0] != 0
    }
}

impl LittleEndianParser for char {
    open spec fn width() -> nat {
        1
    }

    open spec fn decode(bytes: Seq<u8>) -> char {
        bytes[0] as char
    }

    fn parse(serialized: &[u8]) -> (r: char) {
        serialized[0] as char
    }
}

/// The bits of a single-precision number.
#[derive(Clone, Copy, Debug, PartialEq, Eq, Structural)]
pub struct FloatBits(pub u32);

/// The bits of a double-precision number.
#[derive(Clone, Copy, Debug, PartialEq, Eq, Structural)]
pub struct DoubleBits(pub u64);

impl LittleEndianParser for FloatBits {
    open spec fn width() -> nat {
        4
    }

    open spec fn decode(bytes: Seq<u8>) -> FloatBits {
        FloatBits(le_value(bytes.subrange(0, 4)) as u32)
    }

    fn parse(serialized: &[u8]) -> (r: FloatBits) {
        FloatBits(read_u32(serialized))
    }
}

impl LittleEndianParser for DoubleBits {
    open spec fn width() -> nat {
        8
    }

    open spec fn decode(bytes: Seq<u8>) -> DoubleBits {
        DoubleBits(le_value(bytes.subrange(0, 8)) as u64)
    }

    fn parse(serialized: &[u8]) -> (r: DoubleBits) {
        DoubleBits(read_u64(serialized))
    }
}

/// A type that stands for one of the primitive field types.
pub trait FlattenedFieldTypeMatcher {
    /// Whether values of the field type are read as this type.
    spec fn is_read_as(flat_field_type: FlattenedFieldType) -> bool;

    fn matches(flat_field_type: &FlattenedFieldType) -> (r: bool)
        ensures
            r == Self::is_read_as(*flat_field_type),
    ;
}

impl FlattenedFieldTypeMatcher for i8 {
    open spec fn is_read_as(flat_field_type: FlattenedFieldType) -> bool {
        flat_field_type == FlattenedFieldType::Int8
    }

    fn matches(flat_field_type: &FlattenedFieldType) -> (r: bool) {
        *flat_field_type == FlattenedFieldType::Int8
    }
}

impl FlattenedFieldTypeMatcher for u8 {
    open spec fn is_read_as(flat_field_type: FlattenedFieldType) -> bool {
        flat_field_type == FlattenedFieldType::UInt8
    }

    fn matches(flat_field_type: &FlattenedFieldType) -> (r: bool) {
        *flat_field_type == FlattenedFieldType::UInt8
    }
}

impl FlattenedFieldTypeMatcher for i16 {
    open spec fn is_read_as(flat_field_type: FlattenedFieldType) -> bool {
        flat_field_type == FlattenedFieldType::Int16
    }

    fn matches(flat_field_type: &FlattenedFieldType) -> (r: bool) {
        *flat_field_type == FlattenedFieldType::Int16
    }
}

impl FlattenedFieldTypeMatcher for u16 {
    open spec fn is_read_as(flat_field_type: FlattenedFieldType) -> bool {
        flat_field_type == FlattenedFieldType::UInt16
    }

    fn matches(flat_field_type: &FlattenedFieldType) -> (r: bool) {
        *flat_field_type == FlattenedFieldType::UInt16
    }
}

impl FlattenedFieldTypeMatcher for i32 {
    open spec fn is_read_as(flat_field_type: FlattenedFieldType) -> bool {
        flat_field_type == FlattenedFieldType::Int32
    }

    fn matches(flat_field_type: &FlattenedFieldType) -> (r: bool) {
        *flat_field_type == FlattenedFieldType::Int32
    }
}

impl FlattenedFieldTypeMatcher for u32 {
    open spec fn is_read_as(flat_field_type: FlattenedFieldType) -> bool {
        flat_field_type == FlattenedFieldType::UInt32
    }

    fn matches(flat_field_type: &FlattenedFieldType) -> (r: bool) {
        *flat_field_type == FlattenedFieldType::UInt32
    }
}

impl FlattenedFieldTypeMatcher for i64 {
    open spec fn is_read_as(flat_field_type: FlattenedFieldType) -> bool {
        flat_field_type == FlattenedFieldType::Int64
    }

    fn matches(flat_field_type: &FlattenedFieldType) -> (r: bool) {
        *flat_field_type == FlattenedFieldType::Int64
    }
}

impl FlattenedFieldTypeMatcher for u64 {
    open spec fn is_read_as(flat_field_type: FlattenedFieldType) -> bool {
        flat_field_type == FlattenedFieldType::UInt64
    }

    fn matches(flat_field_type: &FlattenedFieldType) -> (r: bool) {
        *flat_field_type == FlattenedFieldType::UInt64
    }
}

impl FlattenedFieldTypeMatcher for bool {
    open spec fn is_read_as(flat_field_type: FlattenedFieldType) -> bool {
        flat_field_type == FlattenedFieldType::Bool
    }

    fn matches(flat_field_type: &FlattenedFieldType) -> (r: bool) {
        *flat_field_type == FlattenedFieldType::Bool
    }
}

impl FlattenedFieldTypeMatcher for char {
    open spec fn is_read_as(flat_field_type: FlattenedFieldType) -> bool {
        flat_field_type == FlattenedFieldType::Char
    }

    fn matches(flat_field_type: &FlattenedFieldType) -> (r: bool) {
        *flat_field_type == FlattenedFieldType::Char
    }
}

impl FlattenedFieldTypeMatcher for FloatBits {
    open spec fn is_read_as(flat_field_type: FlattenedFieldType) -> bool {
        flat_field_type == FlattenedFieldType::Float
    }

    fn matches(flat_field_type: &FlattenedFieldType) -> (r: bool) {
        *flat_field_type == FlattenedFieldType::Float
    }
}

impl FlattenedFieldTypeMatcher for DoubleBits {
    open spec fn is_read_as(flat_field_type: FlattenedFieldType) -> bool {
        flat_field_type == FlattenedFieldType::Double
    }

    fn matches(flat_field_type: &FlattenedFieldType) -> (r: bool) {
        *flat_field_type == FlattenedFieldType::Double
    }
}

} // verus!
