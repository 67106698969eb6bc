use crate::stream_parser::model::{
    value_of, DataMessage, FlattenedField, FlattenedFieldValue, FlattenedFieldView,
};
pub use crate::stream_parser::model::{FlattenedFieldType, MultiId};
use crate::stream_parser::model_helper::{DoubleBits, FloatBits, LittleEndianParser};
use vstd::prelude::*;
use vstd::slice::slice_subrange;

verus! {

/// The values of one field over the records of a log.
#[derive(Debug)]
pub enum SomeVec {
    Int8(Vec<i8>),
    UInt8(Vec<u8>),
    Int16(Vec<i16>),
    UInt16(Vec<u16>),
    Int32(Vec<i32>),
    UInt32(Vec<u32>),
    Int64(Vec<i64>),
    UInt64(Vec<u64>),
    Float(Vec<FloatBits>),
    Double(Vec<DoubleBits>),
    Bool(Vec<bool>),
    Char(Vec<char>),
}

/// Characters as values of fields.
pub open spec fn char_values(s: Seq<char>) -> Seq<FlattenedFieldValue>
    decreases s.len(),
{
    if s.len() == 0 {
        Seq::empty()
    } else {
        char_values(s.drop_last()).push(FlattenedFieldValue::Char(s.last()))
    }
}

impl SomeVec {
    /// The field type whose values the column holds.
    pub open spec fn kind(&self) -> FlattenedFieldType {
        match self {
            SomeVec::Int8(_) => FlattenedFieldType::Int8,
            SomeVec::UInt8(_) => FlattenedFieldType::UInt8,
            SomeVec::Int16(_) => FlattenedFieldType::Int16,
            SomeVec::UInt16(_) => FlattenedFieldType::UInt16,
            SomeVec::Int32(_) => FlattenedFieldType::Int32,
            SomeVec::UInt32(_) => FlattenedFieldType::UInt32,
            SomeVec::Int64(_) => FlattenedFieldType::Int64,
            SomeVec::UInt64(_) => FlattenedFieldType::UInt64,
            SomeVec::Float(_) => FlattenedFieldType::Float,
            SomeVec::Double(_) => FlattenedFieldType::Double,
            SomeVec::Bool(_) => FlattenedFieldType::Bool,
            SomeVec::Char(_) => FlattenedFieldType::Char,
        }
    }

    /// The values that the column holds.
    pub open spec fn values(&self) -> Seq<FlattenedFieldValue> {
        match self {
            SomeVec::Int8(v) => v@.map_values(|x: i8| FlattenedFieldValue::Int8(x)),
            SomeVec::UInt8(v) => v@.map_values(|x: u8| FlattenedFieldValue::UInt8(x)),
            SomeVec::Int16(v) => v@.map_values(|x: i16| FlattenedFieldValue::Int16(x)),
            SomeVec::UInt16(v) => v@.map_values(|x: u16| FlattenedFieldValue::UInt16(x)),
            SomeVec::Int32(v) => v@.map_values(|x: i32| FlattenedFieldValue::Int32(x)),
            SomeVec::UInt32(v) => v@.map_values(|x: u32| FlattenedFieldValue::UInt32(x)),
            SomeVec::Int64(v) => v@.map_values(|x: i64| FlattenedFieldValue::Int64(x)),
            SomeVec::UInt64(v) => v@.map_values(|x: u64| FlattenedFieldValue::UInt64(x)),
            SomeVec::Float(v) => v@.map_values(|x: FloatBits| FlattenedFieldValue::Float(x)),
            SomeVec::Double(v) => v@.map_values(|x: DoubleBits| FlattenedFieldValue::Double(x)),
            SomeVec::Bool(v) => v@.map_values(|x: bool| FlattenedFieldValue::Bool(x)),
            SomeVec::Char(v) => char_values(v@),
        }
    }

    /// The field type whose values the column holds.
    pub fn field_type(&self) -> (r: FlattenedFieldType)
        ensures
            r == self.kind(),
    {
        match self {
            SomeVec::Int8(_) => FlattenedFieldType::Int8,
            SomeVec::UInt8(_) => FlattenedFieldType::UInt8,
            SomeVec::Int16(_) => FlattenedFieldType::Int16,
            SomeVec::UInt16(_) => FlattenedFieldType::UInt16,
            SomeVec::Int32(_) => FlattenedFieldType::Int32,
            SomeVec::UInt32(_) => FlattenedFieldType::UInt32,
            SomeVec::Int64(_) => FlattenedFieldType::Int64,
            SomeVec::UInt64(_) => FlattenedFieldType::UInt64,
            SomeVec::Float(_) => FlattenedFieldType::Float,
            SomeVec::Double(_) => FlattenedFieldType::Double,
            SomeVec::Bool(_) => FlattenedFieldType::Bool,
            SomeVec::Char(_) => FlattenedFieldType::Char,
        }
    }

    /// Puts a value of the column's type behind the others.
    pub fn push(&mut self, value: &FlattenedFieldValue)
        requires
            value.kind() == old(self).kind(),
        ensures
            final(self).kind() == old(self).kind(),
            final(self).values() == old(self).values().push(*value),
    {
        match self {
            SomeVec::Int8(vec) => {
                if let FlattenedFieldValue::Int8(v) = value {
                    let ghost before = vec@;
                    vec.push(*v);
                    assert(vec@.map_values(|x| FlattenedFieldValue::Int8(x)) =~= before.map_values(
                        |x| FlattenedFieldValue::Int8(x),
                    ).push(*value));
                }
            },
            SomeVec::UInt8(vec) => {
                if let FlattenedFieldValue::UInt8(v) = value {
                    let ghost before = vec@;
                    vec.push(*v);
                    assert(vec@.map_values(|x| FlattenedFieldValue::UInt8(x)) =~= before.map_values(
                        |x| FlattenedFieldValue::UInt8(x),
                    ).push(*value));
                }
            },
            SomeVec::Int16(vec) => {
                if let FlattenedFieldValue::Int16(v) = value {
                    let ghost before = vec@;
                    vec.push(*v);
                    assert(vec@.map_values(|x| FlattenedFieldValue::Int16(x)) =~= before.map_values(
                        |x| FlattenedFieldValue::Int16(x),
                    ).push(*value));
                }
            },
            SomeVec::UInt16(vec) => {
                if let FlattenedFieldValue::UInt16(v) = value {
                    let ghost before = vec@;
                    vec.push(*v);
                    assert(vec@.map_values(|x| FlattenedFieldValue::UInt16(x)) =~= before.map_values(
                        |x| FlattenedFieldValue::UInt16(x),
                    ).push(*value));
                }
            },
            SomeVec::Int32(vec) => {
                if let FlattenedFieldValue::Int32(v) = value {
                    let ghost before = vec@;
                    vec.push(*v);
                    assert(vec@.map_values(|x| FlattenedFieldValue::Int32(x)) =~= before.map_values(
                        |x| FlattenedFieldValue::Int32(x),
                    ).push(*value));
                }
            },
            SomeVec::UInt32(vec) => {
                if let FlattenedFieldValue::UInt32(v) = value {
                    let ghost before = vec@;
                    vec.push(*v);
                    assert(vec@.map_values(|x| FlattenedFieldValue::UInt32(x)) =~= before.map_values(
                        |x| FlattenedFieldValue::UInt32(x),
                    ).push(*value));
                }
            },
            SomeVec::Int64(vec) => {
                if let FlattenedFieldValue::Int64(v) = value {
                    let ghost before = vec@;
                    vec.push(*v);
                    assert(vec@.map_values(|x| FlattenedFieldValue::Int64(x)) =~= before.map_values(
                        |x| FlattenedFieldValue::Int64(x),
                    ).push(*value));
                }
            },
            SomeVec::UInt64(vec) => {
                if let FlattenedFieldValue::UInt64(v) = value {
                    let ghost before = vec@;
                    vec.push(*v);
                    assert(vec@.map_values(|x| FlattenedFieldValue::UInt64(x)) =~= before.map_values(
                        |x| FlattenedFieldValue::UInt64(x),
                    ).push(*value));
                }
            },
            SomeVec::Float(vec) => {
                if let FlattenedFieldValue::Float(v) = value {
                    let ghost before = vec@;
                    vec.push(*v);
                    assert(vec@.map_values(|x| FlattenedFieldValue::Float(x)) =~= before.map_values(
                        |x| FlattenedFieldValue::Float(x),
                    ).push(*value));
                }
            },
            SomeVec::Double(vec) => {
                if let FlattenedFieldValue::Double(v) = value {
                    let ghost before = vec@;
                    vec.push(*v);
                    assert(vec@.map_values(|x| FlattenedFieldValue::Double(x)) =~= before.map_values(
                        |x| FlattenedFieldValue::Double(x),
                    ).push(*value));
                }
            },
            SomeVec::Bool(vec) => {
                if let FlattenedFieldValue::Bool(v) = value {
                    let ghost before = vec@;
                    vec.push(*v);
                    assert(vec@.map_values(|x| FlattenedFieldValue::Bool(x)) =~= before.map_values(
                        |x| FlattenedFieldValue::Bool(x),
                    ).push(*value));
                }
            },
            SomeVec::Char(vec) => {
                if let FlattenedFieldValue::Char(v) = value {
                    let ghost before = vec@;
                    vec.push(*v);
                    assert(vec@.drop_last() =~= before);
                }
            },
        }
    }
}

/// An empty column for the values of a field type.
pub fn make_initial_vec(flattened_field_type: &FlattenedFieldType) -> (r: SomeVec)
    ensures
        r.kind() == *flattened_field_type,
        r.values() == Seq::<FlattenedFieldValue>::empty(),
{
    match flattened_field_type {
        FlattenedFieldType::Int8 => {
            let r = SomeVec::Int8(Vec::new());
            assert(r.values() =~= Seq::<FlattenedFieldValue>::empty());
            r
        },
        FlattenedFieldType::UInt8 => {
            let r = SomeVec::UInt8(Vec::new());
            assert(r.values() =~= Seq::<FlattenedFieldValue>::empty());
            r
        },
        FlattenedFieldType::Int16 => {
            let r = SomeVec::Int16(Vec::new());
            assert(r.values() =~= Seq::<FlattenedFieldValue>::empty());
            r
        },
        FlattenedFieldType::UInt16 => {
            let r = SomeVec::UInt16(Vec::new());
            assert(r.values() =~= Seq::<FlattenedFieldValue>::empty());
            r
        },
        FlattenedFieldType::Int32 => {
            let r = SomeVec::Int32(Vec::new());
            assert(r.values() =~= Seq::<FlattenedFieldValue>::empty());
            r
        },
        FlattenedFieldType::UInt32 => {
            let r = SomeVec::UInt32(Vec::new());
            assert(r.values() =~= Seq::<FlattenedFieldValue>::empty());
            r
        },
        FlattenedFieldType::Int64 => {
            let r = SomeVec::Int64(Vec::new());
            assert(r.values() =~= Seq::<FlattenedFieldValue>::empty());
            r
        },
        FlattenedFieldType::UInt64 => {
            let r = SomeVec::UInt64(Vec::new());
            assert(r.values() =~= Seq::<FlattenedFieldValue>::empty());
            r
        },
        FlattenedFieldType::Float => {
            let r = SomeVec::Float(Vec::new());
            assert(r.values() =~= Seq::<FlattenedFieldValue>::empty());
            r
        },
        FlattenedFieldType::Double => {
            let r = SomeVec::Double(Vec::new());
            assert(r.values() =~= Seq::<FlattenedFieldValue>::empty());
            r
        },
        FlattenedFieldType::Bool => {
            let r = SomeVec::Bool(Vec::new());
            assert(r.values() =~= Seq::<FlattenedFieldValue>::empty());
            r
        },
        FlattenedFieldType::Char => {
            let r = SomeVec::Char(Vec::new());
            assert(r.values() =~= Seq::<FlattenedFieldValue>::empty());
            r
        },
    }
}

/// Reads the value of a field out of the payload of a data record.
pub fn deserialize_field(field: &FlattenedField, serialized: &[u8]) -> (r: FlattenedFieldValue)
    requires
        field.offset + field.field_type.width() <= serialized@.len(),
    ensures
        r == value_of(
            field.field_type,
            serialized@.subrange(field.offset as int, serialized@.len() as int),
        ),
{
    let serialized = slice_subrange(serialized, field.offset as usize, serialized.len());
    match field.field_type {
        FlattenedFieldType::Int8 => FlattenedFieldValue::Int8(i8::parse(serialized)),
        FlattenedFieldType::UInt8 => FlattenedFieldValue::UInt8(u8::parse(serialized)),
        FlattenedFieldType::Int16 => FlattenedFieldValue::Int16(i16::parse(serialized)),
        FlattenedFieldType::UInt16 => FlattenedFieldValue::UInt16(u16::parse(serialized)),
        FlattenedFieldType::Int32 => FlattenedFieldValue::Int32(i32::parse(serialized)),
        FlattenedFieldType::UInt32 => FlattenedFieldValue::UInt32(u32::parse(serialized)),
        FlattenedFieldType::Int64 => FlattenedFieldValue::Int64(i64::parse(serialized)),
        FlattenedFieldType::UInt64 => FlattenedFieldValue::UInt64(u64::parse(serialized)),
        FlattenedFieldType::Float => FlattenedFieldValue::Float(FloatBits::parse(serialized)),
        FlattenedFieldType::Double => FlattenedFieldValue::Double(DoubleBits::parse(serialized)),
        FlattenedFieldType::Bool => FlattenedFieldValue::Bool(bool::parse(serialized)),
        FlattenedFieldType::Char => FlattenedFieldValue::Char(char::parse(serialized)),
    }
}

/// The value of each field of a record, in the order of the fields.
pub open spec fn row_of(fields: Seq<FlattenedFieldView>, data: Seq<u8>) -> Seq<FlattenedFieldValue> {
    Seq::new(
        fields.len(),
        |i: int| value_of(fields[i].field_type, data.subrange(fields[i].offset as int, data.len() as int)),
    )
}

/// Whether the columns are columns for the fields: each field has its
/// column, of the field's type.
pub open spec fn columns_for(columns: Seq<SomeVec>, fields: Seq<FlattenedFieldView>) -> bool {
    &&& columns.len() >= fields.len()
    &&& forall|i: int|
        0 <= i < fields.len() ==> (#[trigger] columns[i]).kind() == fields[i].field_type
}

/// Gathers the values of the data records of a log, field by field.
pub struct TotalArrayReader {
    /// For each message id the columns of its fields; none where no
    /// record of the id has come yet.
    pub messages: Vec<Vec<SomeVec>>,
}

impl TotalArrayReader {
    pub fn create() -> (r: TotalArrayReader)
        ensures
            r.messages@.len() == 0,
    {
        let messages = Vec::new();
        Self { messages }
    }

    /// Whether a record of the given message id and fields can be taken
    /// in: no record of the id has come yet, or the columns of the id
    /// are columns for the fields.
    pub open spec fn takes(&self, msg_id: u16, fields: Seq<FlattenedFieldView>) -> bool {
        msg_id < self.messages@.len() ==> self.messages@[msg_id as int]@.len() == 0 || columns_for(
            self.messages@[msg_id as int]@,
            fields,
        )
    }

    /// Puts the value of each field of the record behind the values
    /// that the field's column holds.
    pub fn add_message(&mut self, msg: &DataMessage)
        requires
            msg.readable(),
            old(self).takes(msg.msg_id, msg.flattened_format@.fields),
        ensures
            final(self).messages@.len() == if msg.msg_id < old(self).messages@.len() {
                old(self).messages@.len() as int
            } else {
                msg.msg_id + 1
            },
            forall|id: int|
                0 <= id < final(self).messages@.len() && id != msg.msg_id ==> (#[trigger] final(
                    self
                ).messages@[id])@ == if id < old(self).messages@.len() {
                    old(self).messages@[id]@
                } else {
                    Seq::<SomeVec>::empty()
                },
            columns_for(final(self).messages@[msg.msg_id as int]@, msg.flattened_format@.fields),
            final(self).messages@[msg.msg_id as int]@.len() == if msg.msg_id < old(
                self
            ).messages@.len() && old(self).messages@[msg.msg_id as int]@.len() > 0 {
                old(self).messages@[msg.msg_id as int]@.len()
            } else {
                msg.flattened_format@.fields.len()
            },
            forall|i: int|
                msg.flattened_format@.fields.len() <= i < final(self).messages@[msg.msg_id as int]@.len()
                    ==> #[trigger] final(self).messages@[msg.msg_id as int]@[i] == old(
                    self
                ).messages@[msg.msg_id as int]@[i],
            forall|i: int|
                0 <= i < msg.flattened_format@.fields.len() ==> (#[trigger] final(self).messages@[msg.msg_id as int]@[i]).values() == (if msg.msg_id < old(self).messages@.len() && old(self).messages@[msg.msg_id as int]@.len() > 0 {
                    old(self).messages@[msg.msg_id as int]@[i].values()
                } else {
                    Seq::<FlattenedFieldValue>::empty()
                }).push(row_of(msg.flattened_format@.fields, msg.data@)[i]),
    {
        let ghost fields = msg.flattened_format@.fields;
        let id = msg.msg_id as usize;
        while self.messages.len() <= id
            invariant
                old(self).messages@.len() <= self.messages@.len(),
                self.messages@.len() <= id + 1 || self.messages@.len() == old(self).messages@.len(),
                id == msg.msg_id,
                forall|k: int|
                    0 <= k < self.messages@.len() ==> (#[trigger] self.messages@[k])@ == if k
                        < old(self).messages@.len() {
                        old(self).messages@[k]@
                    } else {
                        Seq::<SomeVec>::empty()
                    },
            decreases id + 1 - self.messages@.len(),
        {
            self.messages.push(Vec::new());
        }
        let ghost grown = self.messages@;
        let mut field_values: Vec<SomeVec> = Vec::new();
        core::mem::swap(&mut field_values, &mut self.messages[id]);
        let ghost fresh = field_values@.len() == 0;
        let ghost earlier = field_values@;
        if field_values.is_empty() {
            let mut k: usize = 0;
            while k < msg.flattened_format.fields.len()
                invariant
                    k <= msg.flattened_format.fields@.len(),
                    fields == msg.flattened_format@.fields,
                    field_values@.len() == k,
                    forall|i: int|
                        0 <= i < k ==> (#[trigger] field_values@[i]).kind() == fields[i].field_type
                            && field_values@[i].values() == Seq::<FlattenedFieldValue>::empty(),
                decreases msg.flattened_format.fields@.len() - k,
            {
                assert(fields[k as int] == msg.flattened_format.fields@[k as int]@);
                field_values.push(make_initial_vec(&msg.flattened_format.fields[k].field_type));
                k += 1;
            }
        }
        let ghost ready = field_values@;
        let mut i: usize = 0;
        while i < msg.flattened_format.fields.len()
            invariant
                i <= msg.flattened_format.fields@.len(),
                fields == msg.flattened_format@.fields,
                msg.readable(),
                field_values@.len() >= fields.len(),
                ready.len() == field_values@.len(),
                forall|j: int|
                    0 <= j < fields.len() ==> (#[trigger] field_values@[j]).kind()
                        == fields[j].field_type,
                forall|j: int|
                    0 <= j < i ==> (#[trigger] field_values@[j]).values() == ready[j].values().push(
                        row_of(fields, msg.data@)[j],
                    ),
                forall|j: int| i <= j < ready.len() ==> #[trigger] field_values@[j] == ready[j],
            decreases msg.flattened_format.fields@.len() - i,
        {
            let el = &msg.flattened_format.fields[i];
            assert(fields[i as int] == el@);
            let value = deserialize_field(el, msg.data);
            let mut column = make_initial_vec(&FlattenedFieldType::Bool);
            core::mem::swap(&mut column, &mut field_values[i]);
            column.push(&value);
            field_values[i] = column;
            i += 1;
        }
        self.messages[id] = field_values;
    }
}

} // verus!
