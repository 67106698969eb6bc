use crate::stream_parser::model::views;
use crate::stream_parser::model_helper::FloatBits;
use crate::text::{
    bytes_eq, contains_bytes, find_first, find_last, first_at, holds_bytes, last_at,
    lemma_chars_of_bytes, lemma_first_at, piece, trim, trimmed,
};
use crate::unpack::{as_i32_le, as_u32_le, as_u64_le, le_value, twos_complement};
use vstd::prelude::*;
use vstd::slice::slice_subrange;
use vstd::string::*;
use vstd::utf8::*;

verus! {

/// One row of a data set: the bytes of a data record behind its message
/// id, and the field declarations of its format.
#[derive(Debug)]
pub struct ULogData {
    pub data: Vec<u8>,
    pub formats: Vec<String>,
}

/// Goes through the fields of a row.
pub struct ULogDataIter<'a> {
    pub data: &'a ULogData,
    pub format_index: usize,
    pub data_index: usize,
}

/// The value of one field of a row.
#[derive(Clone, Copy, Debug, PartialEq, Eq, Structural)]
pub enum DataType {
    UInt64(u64),
    Int32(i32),
    Float(FloatBits),
    UInt8(u8),
    Bool(bool),
}

/// The name that a field declaration gives, if it gives one: what stands
/// behind its last space. A declaration that holds no space, or holds
/// `_padding`, gives none.
pub open spec fn item_of(declared: Seq<u8>) -> Option<Seq<char>> {
    if declared.len() > 0 && !holds_bytes(declared, "_padding"@.map_values(|c: char| c as u8))
        && last_at(declared, 0x20) >= 0 {
        Some(decode_utf8(declared.subrange(last_at(declared, 0x20) + 1, declared.len() as int)))
    } else {
        None
    }
}

/// The names that the first `k` declarations give.
pub open spec fn items_of(declared: Seq<Seq<char>>, k: int) -> Seq<Seq<char>>
    decreases k,
{
    if k <= 0 {
        Seq::empty()
    } else {
        match item_of(encode_utf8(declared[k - 1])) {
            Some(name) => items_of(declared, k - 1).push(name),
            None => items_of(declared, k - 1),
        }
    }
}

/// What a row's next field is read as: its value, and how many bytes of
/// the row it takes. A number of several bytes is only read where a
/// byte follows it; else it counts as zero and takes nothing.
pub open spec fn value_of(written: Seq<u8>, data: Seq<u8>, at: int) -> Option<(DataType, int)> {
    if written == "uint64_t"@.map_values(|c: char| c as u8) {
        if data.len() > at + 8 {
            Some((DataType::UInt64(le_value(data.subrange(at, at + 8)) as u64), 8))
        } else {
            Some((DataType::UInt64(0), 0))
        }
    } else if written == "int32_t"@.map_values(|c: char| c as u8) {
        if data.len() > at + 4 {
            Some(
                (DataType::Int32(twos_complement(le_value(data.subrange(at, at + 4)), 4) as i32), 4),
            )
        } else {
            Some((DataType::Int32(0), 0))
        }
    } else if written == "float"@.map_values(|c: char| c as u8) {
        if data.len() > at + 4 {
            Some((DataType::Float(FloatBits(le_value(data.subrange(at, at + 4)) as u32)), 4))
        } else {
            Some((DataType::Float(FloatBits(0)), 0))
        }
    } else if written == "uint8_t"@.map_values(|c: char| c as u8) {
        Some((DataType::UInt8(data[at]), 1))
    } else if written == "bool"@.map_values(|c: char| c as u8) {
        Some((DataType::Bool(data[at] > 0), 1))
    } else {
        None
    }
}

/// The bytes of an ASCII word.
fn word(text: &str) -> (r: &[u8])
    requires
        is_ascii_chars(text@),
    ensures
        r@ == text@.map_values(|c: char| c as u8),
{
    let r = text.as_bytes();
    proof {
        is_ascii_chars_encode_utf8(text@);
        assert(r@ =~= text@.map_values(|c: char| c as u8));
    }
    r
}

impl ULogData {
    pub fn new(data: Vec<u8>, formats: Vec<String>) -> (r: Self)
        ensures
            r.data == data,
            r.formats == formats,
    {
        Self { data, formats }
    }

    /// The bytes of the row.
    pub fn data(&self) -> (r: &Vec<u8>)
        ensures
            r == self.data,
    {
        &self.data
    }

    /// The field declarations of the row.
    pub fn formats(&self) -> (r: &Vec<String>)
        ensures
            r == self.formats,
    {
        &self.formats
    }

    /// The names of the fields of the row.
    pub fn items(&self) -> (r: Vec<String>)
        ensures
            views(r@) == items_of(views(self.formats@), self.formats@.len() as int),
    {
        let ghost declared = views(self.formats@);
        let mut names: Vec<String> = Vec::new();
        let mut k: usize = 0;
        assert(views(names@) =~= items_of(declared, 0));
        while k < self.formats.len()
            invariant
                k <= self.formats.len(),
                declared == views(self.formats@),
                views(names@) == items_of(declared, k as int),
            decreases self.formats.len() - k,
        {
            let format = self.formats[k].as_str();
            let bytes = format.as_bytes();
            proof {
                lemma_chars_of_bytes(format);
                reveal_strlit("_padding");
            }
            assert(declared[k as int] == format@);
            if bytes.len() > 0 && !contains_bytes(bytes, word("_padding")) {
                match find_last(bytes, 0x20) {
                    Some(space) => {
                        let name = piece(format, space + 1, bytes.len());
                        assert(views(names@.push(name)) =~= views(names@).push(name@));
                        names.push(name);
                    },
                    None => {},
                }
            }
            k += 1;
        }
        names
    }

    /// Starts going through the fields of the row.
    pub fn iter(&self) -> (r: ULogDataIter<'_>)
        ensures
            r.data == self,
            r.format_index == 0,
            r.data_index == 0,
    {
        ULogDataIter { data: self, format_index: 0, data_index: 0 }
    }
}

impl<'a> ULogDataIter<'a> {
    /// Whether there is nothing more to read: the declarations are used
    /// up, or the bytes are.
    pub open spec fn done(&self) -> bool {
        self.format_index > self.data.formats@.len() || self.data_index >= self.data.data@.len()
    }

    /// The declaration that is read next.
    pub open spec fn declared(&self) -> Seq<u8> {
        encode_utf8(self.data.formats@[self.format_index as int]@)
    }

    /// Reads the value of a field of the type that `written` names, at
    /// the place that the iterator has reached in the row.
    pub fn read_value(&mut self, written: &[u8]) -> (r: Option<DataType>)
        requires
            old(self).data_index < old(self).data.data@.len(),
        ensures
            final(self).data == old(self).data,
            final(self).format_index == old(self).format_index,
            match value_of(written@, old(self).data.data@, old(self).data_index as int) {
                Some((value, taken)) => r == Some(value) && final(self).data_index == old(
                    self,
                ).data_index + taken,
                None => r is None && final(self).data_index == old(self).data_index,
            },
    {
        proof {
            reveal_strlit("uint64_t");
            reveal_strlit("int32_t");
            reveal_strlit("float");
            reveal_strlit("uint8_t");
            reveal_strlit("bool");
        }
        let row = &self.data.data;
        let at = self.data_index;
        let length = row.len();
        if bytes_eq(written, word("uint64_t")) {
            let val = if length - at > 8 {
                self.data_index = at + 8;
                as_u64_le(slice_subrange(row.as_slice(), at, at + 8))
            } else {
                0
            };
            Some(DataType::UInt64(val))
        } else if bytes_eq(written, word("int32_t")) {
            let val = if length - at > 4 {
                self.data_index = at + 4;
                as_i32_le(slice_subrange(row.as_slice(), at, at + 4))
            } else {
                0
            };
            Some(DataType::Int32(val))
        } else if bytes_eq(written, word("float")) {
            let val = if length - at > 4 {
                self.data_index = at + 4;
                as_u32_le(slice_subrange(row.as_slice(), at, at + 4))
            } else {
                0
            };
            Some(DataType::Float(FloatBits(val)))
        } else if bytes_eq(written, word("uint8_t")) {
            let v = row[at];
            self.data_index = at + 1;
            Some(DataType::UInt8(v))
        } else if bytes_eq(written, word("bool")) {
            let v = row[at] > 0;
            self.data_index = at + 1;
            Some(DataType::Bool(v))
        } else {
            None
        }
    }

    /// Reads the next field of the row: its name and its value. The
    /// declaration is a type, a space and the name; the name is handed
    /// out without the white space around it. There must be a
    /// declaration left while bytes are left, and it must hold a space.
    pub fn next_value(&mut self) -> (r: Option<(&'a str, DataType)>)
        requires
            !old(self).done() ==> old(self).format_index < old(self).data.formats@.len()
                && first_at(old(self).declared(), 0x20) < old(self).declared().len(),
        ensures
            final(self).data == old(self).data,
            old(self).done() ==> r is None && *final(self) == *old(self),
            !old(self).done() ==> final(self).format_index == old(self).format_index + 1 && ({
                let declared = old(self).declared();
                let space = first_at(declared, 0x20);
                match value_of(
                    declared.subrange(0, space),
                    old(self).data.data@,
                    old(self).data_index as int,
                ) {
                    Some((value, taken)) => r matches Some(field) && field.1 == value && field.0@
                        == trimmed(decode_utf8(declared.subrange(space, declared.len() as int)))
                        && final(self).data_index == old(self).data_index + taken,
                    None => r is None && final(self).data_index == old(self).data_index,
                }
            }),
    {
        if self.format_index > self.data.formats.len() || self.data_index >= self.data.data.len() {
            return None;
        }
        let format: &'a str = self.data.formats[self.format_index].as_str();
        self.format_index += 1;
        let bytes = format.as_bytes();
        proof {
            lemma_chars_of_bytes(format);
            lemma_first_at(bytes@, 0x20);
        }
        let space = match find_first(bytes, 0x20) {
            Some(space) => space,
            None => {
                return None;
            },
        };
        proof {
            crate::text::lemma_piece_valid(bytes@, space as int, bytes@.len() as int);
            crate::text::lemma_cut_is_char_boundary(bytes@, space as int);
        }
        let (dtype, fname) = format.split_at(space);
        proof {
            lemma_chars_of_bytes(fname);
            assert(fname.spec_bytes() =~= bytes@.subrange(space as int, bytes@.len() as int));
        }
        let fname = trim(fname);
        match self.read_value(dtype.as_bytes()) {
            Some(value) => Some((fname, value)),
            None => None,
        }
    }
}

} // verus!
