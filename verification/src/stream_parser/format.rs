use crate::stream_parser::model::{
    parsed, views, FlattenedFieldType, ParseErrorType, ULogMessage, UlogParseError,
};
use crate::text::{
    lemma_chars_of_bytes, parse_i16, piece, pieces, read_i16, split_by, split_ranges, str_eq,
};
use vstd::prelude::*;
use vstd::string::*;
use vstd::utf8::*;

verus! {

/// The element type that a field is declared with: one of the twelve
/// primitives, or another message by its name.
#[derive(Debug)]
pub enum DataType {
    Int8,
    UInt8,
    Int16,
    UInt16,
    Int32,
    UInt32,
    Int64,
    UInt64,
    Float,
    Double,
    Bool,
    Char,
    Message(String),
}

pub enum TypeView {
    Primitive(FlattenedFieldType),
    Message(Seq<char>),
}

impl View for DataType {
    type V = TypeView;

    open spec fn view(&self) -> TypeView {
        match self {
            DataType::Int8 => TypeView::Primitive(FlattenedFieldType::Int8),
            DataType::UInt8 => TypeView::Primitive(FlattenedFieldType::UInt8),
            DataType::Int16 => TypeView::Primitive(FlattenedFieldType::Int16),
            DataType::UInt16 => TypeView::Primitive(FlattenedFieldType::UInt16),
            DataType::Int32 => TypeView::Primitive(FlattenedFieldType::Int32),
            DataType::UInt32 => TypeView::Primitive(FlattenedFieldType::UInt32),
            DataType::Int64 => TypeView::Primitive(FlattenedFieldType::Int64),
            DataType::UInt64 => TypeView::Primitive(FlattenedFieldType::UInt64),
            DataType::Float => TypeView::Primitive(FlattenedFieldType::Float),
            DataType::Double => TypeView::Primitive(FlattenedFieldType::Double),
            DataType::Bool => TypeView::Primitive(FlattenedFieldType::Bool),
            DataType::Char => TypeView::Primitive(FlattenedFieldType::Char),
            DataType::Message(name) => TypeView::Message(name@),
        }
    }
}

/// The element type that a type name stands for: one of the twelve
/// primitive names, or else the name of a message.
pub open spec fn type_of_name(name: Seq<char>) -> TypeView {
    if name == "int8_t"@ {
        TypeView::Primitive(FlattenedFieldType::Int8)
    } else if name == "uint8_t"@ {
        TypeView::Primitive(FlattenedFieldType::UInt8)
    } else if name == "int16_t"@ {
        TypeView::Primitive(FlattenedFieldType::Int16)
    } else if name == "uint16_t"@ {
        TypeView::Primitive(FlattenedFieldType::UInt16)
    } else if name == "int32_t"@ {
        TypeView::Primitive(FlattenedFieldType::Int32)
    } else if name == "uint32_t"@ {
        TypeView::Primitive(FlattenedFieldType::UInt32)
    } else if name == "int64_t"@ {
        TypeView::Primitive(FlattenedFieldType::Int64)
    } else if name == "uint64_t"@ {
        TypeView::Primitive(FlattenedFieldType::UInt64)
    } else if name == "float"@ {
        TypeView::Primitive(FlattenedFieldType::Float)
    } else if name == "double"@ {
        TypeView::Primitive(FlattenedFieldType::Double)
    } else if name == "bool"@ {
        TypeView::Primitive(FlattenedFieldType::Bool)
    } else if name == "char"@ {
        TypeView::Primitive(FlattenedFieldType::Char)
    } else {
        TypeView::Message(name)
    }
}

impl DataType {
    pub fn from_str(written_type: &str) -> (r: Self)
        ensures
            r@ == type_of_name(written_type@),
    {
        if str_eq(written_type, "int8_t") {
            DataType::Int8
        } else if str_eq(written_type, "uint8_t") {
            DataType::UInt8
        } else if str_eq(written_type, "int16_t") {
            DataType::Int16
        } else if str_eq(written_type, "uint16_t") {
            DataType::UInt16
        } else if str_eq(written_type, "int32_t") {
            DataType::Int32
        } else if str_eq(written_type, "uint32_t") {
            DataType::UInt32
        } else if str_eq(written_type, "int64_t") {
            DataType::Int64
        } else if str_eq(written_type, "uint64_t") {
            DataType::UInt64
        } else if str_eq(written_type, "float") {
            DataType::Float
        } else if str_eq(written_type, "double") {
            DataType::Double
        } else if str_eq(written_type, "bool") {
            DataType::Bool
        } else if str_eq(written_type, "char") {
            DataType::Char
        } else {
            DataType::Message(written_type.to_owned())
        }
    }

    /// The primitive that the type stands for, unless it names a message.
    pub fn primitive(&self) -> (r: Option<FlattenedFieldType>)
        ensures
            match r {
                Some(p) => self@ == TypeView::Primitive(p),
                None => self@ is Message,
            },
    {
        match self {
            DataType::Int8 => Some(FlattenedFieldType::Int8),
            DataType::UInt8 => Some(FlattenedFieldType::UInt8),
            DataType::Int16 => Some(FlattenedFieldType::Int16),
            DataType::UInt16 => Some(FlattenedFieldType::UInt16),
            DataType::Int32 => Some(FlattenedFieldType::Int32),
            DataType::UInt32 => Some(FlattenedFieldType::UInt32),
            DataType::Int64 => Some(FlattenedFieldType::Int64),
            DataType::UInt64 => Some(FlattenedFieldType::UInt64),
            DataType::Float => Some(FlattenedFieldType::Float),
            DataType::Double => Some(FlattenedFieldType::Double),
            DataType::Bool => Some(FlattenedFieldType::Bool),
            DataType::Char => Some(FlattenedFieldType::Char),
            DataType::Message(_) => None,
        }
    }
}

/// An element type, alone or as an array of a given length.
#[derive(Debug)]
pub enum MaybeRepeatedType {
    Singular(DataType),
    Repeated(DataType, i16),
}

impl View for MaybeRepeatedType {
    type V = (TypeView, Option<i16>);

    open spec fn view(&self) -> (TypeView, Option<i16>) {
        match self {
            MaybeRepeatedType::Singular(inner) => (inner@, None),
            MaybeRepeatedType::Repeated(inner, n) => (inner@, Some(*n)),
        }
    }
}

pub open spec fn invalid_type(written: Seq<u8>) -> Seq<char> {
    "invalid type string: "@ + decode_utf8(written)
}

/// What a written type says: an element type, or an element type with
/// an array length in square brackets behind it.
pub open spec fn parse_type(written: Seq<u8>) -> Result<(TypeView, Option<i16>), Seq<char>> {
    let parts = split_by(written, 0x5B);
    if parts.len() == 1 {
        Ok((type_of_name(decode_utf8(written)), None))
    } else if parts.len() == 2 && parts[1].len() > 0 && parts[1].last() == 0x5D && parse_i16(
        parts[1].drop_last(),
    ) is Some {
        Ok((type_of_name(decode_utf8(parts[0])), parse_i16(parts[1].drop_last())))
    } else {
        Err(invalid_type(written))
    }
}

impl MaybeRepeatedType {
    pub fn from_str(written_type: &str) -> (r: Result<Self, UlogParseError>)
        ensures
            parsed(r, parse_type(written_type.spec_bytes())),
    {
        let bytes = written_type.as_bytes();
        proof {
            lemma_chars_of_bytes(written_type);
            assert(bytes@.subrange(0, bytes@.len() as int) =~= bytes@);
        }
        let split = split_ranges(bytes, 0, bytes.len(), 0x5B);
        let ghost parts = split_by(bytes@, 0x5B);
        assert(parts.len() == split@.len());
        if split.len() == 1 {
            return Ok(MaybeRepeatedType::Singular(DataType::from_str(written_type)));
        } else if split.len() == 2 {
            let (a, b) = split[1];
            assert(parts[1] == bytes@.subrange(a as int, b as int));
            if b > a && bytes[b - 1] == 0x5D {
                assert(parts[1].drop_last() =~= bytes@.subrange(a as int, b - 1));
                match read_i16(bytes, a, b - 1) {
                    Some(number) => {
                        let (from, to) = split[0];
                        assert(parts[0] == bytes@.subrange(from as int, to as int));
                        let head = piece(written_type, from, to);
                        return Ok(
                            MaybeRepeatedType::Repeated(DataType::from_str(head.as_str()), number),
                        );
                    },
                    None => {},
                }
            }
        }
        let mut text = "invalid type string: ".to_owned();
        text.append(written_type);
        Err(UlogParseError::other(text))
    }
}

/// One declared field of a message format.
#[derive(Debug)]
pub struct Field {
    pub field_name: String,
    pub field_type: MaybeRepeatedType,
}

pub struct FieldView {
    pub name: Seq<char>,
    pub inner: TypeView,
    /// The array length, where the field is an array.
    pub repeat: Option<i16>,
}

impl View for Field {
    type V = FieldView;

    open spec fn view(&self) -> FieldView {
        FieldView { name: self.field_name@, inner: self.field_type@.0, repeat: self.field_type@.1 }
    }
}

pub open spec fn invalid_field(declared: Seq<u8>) -> Seq<char> {
    "invalid type_and_name string: "@ + decode_utf8(declared)
}

/// What a field declaration says: a written type, one space, and the
/// field's name.
pub open spec fn parse_field(declared: Seq<u8>) -> Result<FieldView, Seq<char>> {
    let words = split_by(declared, 0x20);
    if words.len() != 2 || words[0].len() == 0 || words[1].len() == 0 {
        Err(invalid_field(declared))
    } else {
        match parse_type(words[0]) {
            Err(e) => Err(e),
            Ok(shape) => Ok(
                FieldView { name: decode_utf8(words[1]), inner: shape.0, repeat: shape.1 },
            ),
        }
    }
}

impl Field {
    /// Reads one field declaration.
    pub fn from_str(type_and_name: &str) -> (r: Result<Self, UlogParseError>)
        ensures
            parsed(r, parse_field(type_and_name.spec_bytes())),
    {
        let bytes = type_and_name.as_bytes();
        proof {
            lemma_chars_of_bytes(type_and_name);
            assert(bytes@.subrange(0, bytes@.len() as int) =~= bytes@);
        }
        let split = split_ranges(bytes, 0, bytes.len(), 0x20);
        let ghost words = split_by(bytes@, 0x20);
        assert(words.len() == split@.len());
        if split.len() == 2 {
            let (a, b) = split[0];
            let (c, d) = split[1];
            assert(words[0] == bytes@.subrange(a as int, b as int));
            assert(words[1] == bytes@.subrange(c as int, d as int));
            if a < b && c < d {
                let written_type = piece(type_and_name, a, b);
                let field_type = match MaybeRepeatedType::from_str(written_type.as_str()) {
                    Ok(field_type) => field_type,
                    Err(e) => {
                        return Err(e);
                    },
                };
                let field_name = piece(type_and_name, c, d);
                return Ok(Field { field_name, field_type });
            }
        }
        let mut text = "invalid type_and_name string: ".to_owned();
        text.append(type_and_name);
        Err(UlogParseError::other(text))
    }
}

/// A message format as it was defined: its name and its fields in order.
#[derive(Debug)]
pub struct Format {
    pub message_name: String,
    pub fields: Vec<Field>,
}

pub struct FormatView {
    pub name: Seq<char>,
    pub fields: Seq<FieldView>,
}

impl View for Format {
    type V = FormatView;

    open spec fn view(&self) -> FormatView {
        FormatView {
            name: self.message_name@,
            fields: views(self.fields@),
        }
    }
}

pub open spec fn not_a_string() -> Seq<char> {
    "format message is not a string"@
}

pub open spec fn invalid_format(text: Seq<u8>) -> Seq<char> {
    "invalid format string: "@ + decode_utf8(text)
}

pub open spec fn duplicate_field(text: Seq<u8>) -> Seq<char> {
    "duplicate field name in format string: "@ + decode_utf8(text)
}

/// The fields that the first `k` declarations give; an empty declaration
/// gives none.
pub open spec fn parse_declarations(declarations: Seq<Seq<u8>>, k: int) -> Result<
    Seq<FieldView>,
    Seq<char>,
>
    decreases k,
{
    if k <= 0 {
        Ok(Seq::empty())
    } else {
        match parse_declarations(declarations, k - 1) {
            Err(e) => Err(e),
            Ok(fields) => if declarations[k - 1].len() == 0 {
                Ok(fields)
            } else {
                match parse_field(declarations[k - 1]) {
                    Err(e) => Err(e),
                    Ok(field) => Ok(fields.push(field)),
                }
            },
        }
    }
}

/// Once a declaration cannot be read, the declarations behind it are
/// not looked at.
pub proof fn lemma_declarations_failure_stays(declarations: Seq<Seq<u8>>, k: int, n: int)
    requires
        k <= n,
        parse_declarations(declarations, k) is Err,
    ensures
        parse_declarations(declarations, n) == parse_declarations(declarations, k),
    decreases n - k,
{
    if k < n {
        lemma_declarations_failure_stays(declarations, k, n - 1);
    }
}

/// Whether no two fields bear one name.
pub open spec fn distinct_names(fields: Seq<FieldView>) -> bool {
    forall|i: int, j: int|
        0 <= i < j < fields.len() ==> (#[trigger] fields[i]).name != (#[trigger] fields[j]).name
}

/// What the payload of a format record says: the message's name, a
/// colon, and the field declarations, each with a semicolon behind it.
pub open spec fn format_of(text: Seq<u8>) -> Result<FormatView, Seq<char>> {
    let parts = split_by(text, 0x3A);
    if !valid_utf8(text) {
        Err(not_a_string())
    } else if parts.len() != 2 || parts[0].len() == 0 || parts[1].len() == 0 {
        Err(invalid_format(text))
    } else {
        let declarations = split_by(parts[1], 0x3B);
        match parse_declarations(declarations, declarations.len() as int) {
            Err(e) => Err(e),
            Ok(fields) => if distinct_names(fields) {
                Ok(FormatView { name: decode_utf8(parts[0]), fields: fields })
            } else {
                Err(duplicate_field(text))
            },
        }
    }
}

/// Whether two of the fields bear one name.
pub fn has_duplicate_names(fields: &Vec<Field>) -> (r: bool)
    ensures
        r == !distinct_names(views(fields@)),
{
    let ghost all = views(fields@);
    let mut j: usize = 0;
    while j < fields.len()
        invariant
            j <= fields.len(),
            all == views(fields@),
            forall|a: int, b: int|
                0 <= a < b < j ==> (#[trigger] all[a]).name != (#[trigger] all[b]).name,
        decreases fields.len() - j,
    {
        let mut i: usize = 0;
        while i < j
            invariant
                i <= j < fields.len(),
                all == views(fields@),
                forall|a: int| 0 <= a < i ==> (#[trigger] all[a]).name != all[j as int].name,
            decreases j - i,
        {
            if str_eq(fields[i].field_name.as_str(), fields[j].field_name.as_str()) {
                assert(all[i as int].name == all[j as int].name);
                return true;
            }
            i += 1;
        }
        j += 1;
    }
    false
}

/// Reads the payload of a format record.
pub fn parse_format(message: &ULogMessage) -> (r: Result<Format, UlogParseError>)
    ensures
        parsed(r, format_of(message.payload())),
{
    let data = message.data();
    let format = match core::str::from_utf8(data) {
        Ok(format) => format,
        Err(_) => {
            return Err(UlogParseError::new(ParseErrorType::Other, "format message is not a string"));
        },
    };
    let bytes = format.as_bytes();
    proof {
        lemma_chars_of_bytes(format);
        assert(bytes@.subrange(0, bytes@.len() as int) =~= bytes@);
    }
    let parts = split_ranges(bytes, 0, bytes.len(), 0x3A);
    let ghost halves = split_by(bytes@, 0x3A);
    assert(halves.len() == parts@.len());
    if parts.len() != 2 || parts[0].0 == parts[0].1 || parts[1].0 == parts[1].1 {
        proof {
            if parts@.len() == 2 {
                assert(halves[0] == bytes@.subrange(parts@[0].0 as int, parts@[0].1 as int));
                assert(halves[1] == bytes@.subrange(parts@[1].0 as int, parts@[1].1 as int));
            }
        }
        let mut text = "invalid format string: ".to_owned();
        text.append(format);
        return Err(UlogParseError::other(text));
    }
    let (name_from, name_to) = parts[0];
    let (from, to) = parts[1];
    assert(halves[0] == bytes@.subrange(name_from as int, name_to as int));
    assert(halves[1] == bytes@.subrange(from as int, to as int));
    let message_name = piece(format, name_from, name_to);
    let ranges = split_ranges(bytes, from, to, 0x3B);
    let ghost declarations = split_by(halves[1], 0x3B);
    assert(declarations.len() == ranges@.len());
    let mut fields: Vec<Field> = Vec::new();
    let mut k: usize = 0;
    assert(views(fields@) =~= Seq::<FieldView>::empty());
    while k < ranges.len()
        invariant
            k <= ranges.len(),
            bytes@ == format.spec_bytes(),
            declarations == pieces(bytes@, ranges@),
            forall|i: int|
                0 <= i < ranges@.len() ==> (#[trigger] ranges@[i]).0 <= ranges@[i].1
                    <= bytes@.len() && crate::text::is_cut(bytes@, ranges@[i].0 as int)
                    && crate::text::is_cut(bytes@, ranges@[i].1 as int),
            parse_declarations(declarations, k as int) == Ok::<Seq<FieldView>, Seq<char>>(
                views(fields@),
            ),
            parse_declarations(declarations, declarations.len() as int) matches Err(e)
                ==> format_of(message.payload()) == Err::<FormatView, Seq<char>>(e),
        decreases ranges.len() - k,
    {
        let (a, b) = ranges[k];
        assert(declarations[k as int] == bytes@.subrange(a as int, b as int));
        if a < b {
            let type_and_name = piece(format, a, b);
            match Field::from_str(type_and_name.as_str()) {
                Ok(field) => {
                    assert(views(fields@.push(field)) =~= views(fields@).push(field@));
                    fields.push(field);
                },
                Err(e) => {
                    proof {
                        lemma_declarations_failure_stays(
                            declarations,
                            k + 1,
                            declarations.len() as int,
                        );
                    }
                    return Err(e);
                },
            }
        }
        k += 1;
    }
    if has_duplicate_names(&fields) {
        let mut text = "duplicate field name in format string: ".to_owned();
        text.append(format);
        return Err(UlogParseError::other(text));
    }
    Ok(Format { message_name, fields })
}

} // verus!
