use crate::models::data::ULogData;
use crate::stream_parser::model::{views, MessageType, ParseErrorType, UlogParseError};
use crate::text::{lemma_chars_of_bytes, piece, pieces, split_by, split_ranges, str_eq};
use crate::unpack::{as_str, as_u16_le, le_value, not_text};
use vstd::prelude::*;
use vstd::slice::{slice_subrange, slice_to_vec};
use vstd::string::*;
use vstd::utf8::*;

verus! {

pub open spec fn not_a_string() -> Seq<char> {
    "format message is not a string"@
}

pub open spec fn invalid_format() -> Seq<char> {
    "invalid format string"@
}

/// What the payload of a format record declares: the name before the
/// colon, and behind it the field declarations that the semicolons part.
pub open spec fn declared_by(data: Seq<u8>) -> Result<(Seq<char>, Seq<Seq<char>>), Seq<char>> {
    let parts = split_by(data, 0x3A);
    if !valid_utf8(data) {
        Err(not_a_string())
    } else if parts.len() != 2 {
        Err(invalid_format())
    } else {
        Ok((decode_utf8(parts[0]), split_by(parts[1], 0x3B).map_values(|p: Seq<u8>| decode_utf8(p))))
    }
}

/// Reads the payload of a format record as a name and field
/// declarations.
pub fn parse_format(data: &[u8]) -> (r: Result<(String, Vec<String>), UlogParseError>)
    ensures
        match r {
            Ok(declared) => declared_by(data@) == Ok::<(Seq<char>, Seq<Seq<char>>), Seq<char>>(
                (declared.0@, views(declared.1@)),
            ),
            Err(e) => declared_by(data@) == Err::<(Seq<char>, Seq<Seq<char>>), Seq<char>>(
                e.text(),
            ) && e.kind() == ParseErrorType::Other,
        },
{
    let format = match core::str::from_utf8(data) {
        Ok(format) => format,
        Err(_) => {
            return Err(UlogParseError::new(ParseErrorType::Other, "format message is not a string"));
        },
    };
    let bytes = format.as_bytes();
    proof {
        lemma_chars_of_bytes(format);
        assert(bytes@.subrange(0, bytes@.len() as int) =~= bytes@);
    }
    let parts = split_ranges(bytes, 0, bytes.len(), 0x3A);
    let ghost halves = split_by(bytes@, 0x3A);
    assert(halves.len() == parts@.len());
    if parts.len() != 2 {
        return Err(UlogParseError::new(ParseErrorType::Other, "invalid format string"));
    }
    let (name_from, name_to) = parts[0];
    let (from, to) = parts[1];
    assert(halves[0] == bytes@.subrange(name_from as int, name_to as int));
    assert(halves[1] == bytes@.subrange(from as int, to as int));
    let name = piece(format, name_from, name_to);
    let ranges = split_ranges(bytes, from, to, 0x3B);
    let ghost declarations = split_by(halves[1], 0x3B);
    assert(declarations.len() == ranges@.len());
    let mut types: Vec<String> = Vec::new();
    let mut k: usize = 0;
    while k < ranges.len()
        invariant
            k <= ranges.len(),
            bytes@ == format.spec_bytes(),
            declarations == pieces(bytes@, ranges@),
            forall|i: int|
                0 <= i < ranges@.len() ==> (#[trigger] ranges@[i]).0 <= ranges@[i].1
                    <= bytes@.len() && crate::text::is_cut(bytes@, ranges@[i].0 as int)
                    && crate::text::is_cut(bytes@, ranges@[i].1 as int),
            types@.len() == k,
            forall|i: int| 0 <= i < k ==> (#[trigger] types@[i])@ == decode_utf8(declarations[i]),
        decreases ranges.len() - k,
    {
        let (a, b) = ranges[k];
        assert(declarations[k as int] == bytes@.subrange(a as int, b as int));
        types.push(piece(format, a, b));
        k += 1;
    }
    assert(views(types@) =~= declarations.map_values(|p: Seq<u8>| decode_utf8(p)));
    Ok((name, types))
}

/// A copy of a list of texts.
pub fn clone_texts(texts: &Vec<String>) -> (r: Vec<String>)
    ensures
        views(r@) == views(texts@),
{
    let mut r: Vec<String> = Vec::new();
    let mut i: usize = 0;
    while i < texts.len()
        invariant
            i <= texts.len(),
            r@.len() == i,
            forall|j: int| 0 <= j < i ==> (#[trigger] r@[j])@ == texts@[j]@,
        decreases texts.len() - i,
    {
        r.push(texts[i].clone());
        i += 1;
    }
    assert(views(r@) =~= views(texts@));
    r
}

/// What has been gathered of one data set while the records of a log go
/// by: the field declarations of its format, and the message id that
/// its records bear.
pub struct DatasetCursor {
    pub name: String,
    pub formats: Vec<String>,
    pub msg_id: u16,
}

pub struct CursorView {
    pub name: Seq<char>,
    pub formats: Seq<Seq<char>>,
    pub msg_id: u16,
}

impl View for DatasetCursor {
    type V = CursorView;

    open spec fn view(&self) -> CursorView {
        CursorView { name: self.name@, formats: views(self.formats@), msg_id: self.msg_id }
    }
}

/// What a record does to the cursor, and the row that it gives, if it is
/// a data record of the set. The payload of a record that binds an id
/// holds three bytes at least, that of a data record two.
pub open spec fn taking(c: CursorView, message_type: MessageType, data: Seq<u8>) -> Result<
    (CursorView, Option<(Seq<u8>, Seq<Seq<char>>)>),
    Seq<char>,
> {
    match message_type {
        MessageType::Format => match declared_by(data) {
            Err(e) => Err(e),
            Ok(declared) => if declared.0 == c.name {
                Ok((CursorView { formats: c.formats + declared.1, ..c }, None))
            } else {
                Ok((c, None))
            },
        },
        MessageType::AddLoggedMessage => if !valid_utf8(data.subrange(3, data.len() as int)) {
            Err(not_text())
        } else if decode_utf8(data.subrange(3, data.len() as int)) == c.name {
            Ok((CursorView { msg_id: le_value(data.subrange(1, 3)) as u16, ..c }, None))
        } else {
            Ok((c, None))
        },
        MessageType::Data => if le_value(data.subrange(0, 2)) == c.msg_id {
            Ok((c, Some((data.subrange(2, data.len() as int), c.formats))))
        } else {
            Ok((c, None))
        },
        _ => Ok((c, None)),
    }
}

impl DatasetCursor {
    /// A cursor for the data set called `name`, before any record.
    pub fn new(name: &str) -> (r: Self)
        ensures
            r@ == (CursorView { name: name@, formats: Seq::<Seq<char>>::empty(), msg_id: 0 }),
    {
        let formats: Vec<String> = Vec::new();
        assert(views(formats@) =~= Seq::<Seq<char>>::empty());
        DatasetCursor { name: name.to_owned(), formats, msg_id: 0 }
    }

    /// Takes the next record of the log.
    pub fn take(&mut self, message_type: MessageType, data: &[u8]) -> (r: Result<
        Option<ULogData>,
        UlogParseError,
    >)
        requires
            message_type == MessageType::AddLoggedMessage ==> data@.len() >= 3,
            message_type == MessageType::Data ==> data@.len() >= 2,
        ensures
            match r {
                Ok(row) => taking(old(self)@, message_type, data@) matches Ok(taken) && taken.0
                    == final(self)@ && match row {
                    Some(row) => taken.1 matches Some(given) && row.data@ == given.0 && views(
                        row.formats@,
                    ) == given.1,
                    None => taken.1 is None,
                },
                Err(e) => taking(old(self)@, message_type, data@) == Err::<
                    (CursorView, Option<(Seq<u8>, Seq<Seq<char>>)>),
                    Seq<char>,
                >(e.text()) && e.kind() == ParseErrorType::Other && final(self)@ == old(self)@,
            },
    {
        match message_type {
            MessageType::Format => {
                let (format_name, mut types) = match parse_format(data) {
                    Ok(declared) => declared,
                    Err(e) => {
                        return Err(e);
                    },
                };
                if str_eq(format_name.as_str(), self.name.as_str()) {
                    let ghost before = views(self.formats@);
                    let ghost added = views(types@);
                    self.formats.append(&mut types);
                    assert(views(self.formats@) =~= before + added);
                }
                Ok(None)
            },
            MessageType::AddLoggedMessage => {
                let message_name = match as_str(slice_subrange(data, 3, data.len())) {
                    Ok(message_name) => message_name,
                    Err(e) => {
                        return Err(e);
                    },
                };
                if str_eq(message_name, self.name.as_str()) {
                    self.msg_id = as_u16_le(slice_subrange(data, 1, 3));
                }
                Ok(None)
            },
            MessageType::Data => {
                let data_msg_id = as_u16_le(slice_subrange(data, 0, 2));
                if data_msg_id == self.msg_id {
                    let row = slice_to_vec(slice_subrange(data, 2, data.len()));
                    Ok(Some(ULogData::new(row, clone_texts(&self.formats))))
                } else {
                    Ok(None)
                }
            },
            _ => Ok(None),
        }
    }
}

} // verus!
