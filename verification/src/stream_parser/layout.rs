use crate::stream_parser::flatten::{
    elided, flat_field, flat_fields, flat_message, flat_repeat, flat_type, flatten_all,
    flatten_one, is_padding, lemma_remaining_decreases, lookup, nested_prefix, remaining,
    stop_from, Expansion,
};
use crate::stream_parser::format::{distinct_names, FieldView, FormatView, TypeView};
use crate::stream_parser::model::{FlattenedFieldType, FlattenedFieldView};
use vstd::prelude::*;

verus! {

/// Whether the fields lie one behind the other between `start` and `end`:
/// none begins before `start`, none overlaps the next, none reaches
/// beyond `end`. Room may be left between them.
pub open spec fn laid_out(fields: Seq<FlattenedFieldView>, start: int, end: int) -> bool {
    &&& forall|i: int|
        0 <= i < fields.len() ==> start <= (#[trigger] fields[i]).offset && fields[i].offset
            + fields[i].field_type.width() <= end
    &&& forall|i: int, j: int|
        0 <= i < j < fields.len() ==> (#[trigger] fields[i]).offset
            + fields[i].field_type.width() <= (#[trigger] fields[j]).offset
}

/// The room that the fields take together.
pub open spec fn widths(fields: Seq<FlattenedFieldView>) -> nat
    decreases fields.len(),
{
    if fields.len() == 0 {
        0
    } else {
        widths(fields.drop_last()) + fields.last().field_type.width()
    }
}

/// Whether an expansion that succeeded ends within 16 bits, with its
/// fields laid out between its start and its end.
pub open spec fn sound(r: Result<Expansion, Seq<char>>, start: int) -> bool {
    r matches Ok(x) ==> start <= x.end <= 0xFFFF && laid_out(x.fields, start, x.end)
}

proof fn lemma_laid_out_concat(
    a: Seq<FlattenedFieldView>,
    b: Seq<FlattenedFieldView>,
    start: int,
    mid: int,
    end: int,
)
    requires
        laid_out(a, start, mid),
        laid_out(b, mid, end),
        start <= mid <= end,
    ensures
        laid_out(a + b, start, end),
{
    let c = a + b;
    assert forall|i: int| 0 <= i < c.len() implies start <= (#[trigger] c[i]).offset && c[i].offset
        + c[i].field_type.width() <= end by {
        if i < a.len() {
            assert(c[i] == a[i]);
        } else {
            assert(c[i] == b[i - a.len()]);
        }
    }
    assert forall|i: int, j: int| 0 <= i < j < c.len() implies (#[trigger] c[i]).offset
        + c[i].field_type.width() <= (#[trigger] c[j]).offset by {
        if j < a.len() {
            assert(c[i] == a[i] && c[j] == a[j]);
        } else if i >= a.len() {
            assert(c[i] == b[i - a.len()] && c[j] == b[j - a.len()]);
        } else {
            assert(c[i] == a[i] && c[j] == b[j - a.len()]);
        }
    }
}

proof fn lemma_type_layout(
    defs: Seq<FormatView>,
    ty: TypeView,
    qname: Seq<char>,
    start: int,
    visiting: Set<Seq<char>>,
)
    requires
        0 <= start <= 0xFFFF,
    ensures
        sound(flat_type(defs, ty, qname, start, visiting), start),
    decreases remaining(defs, visiting), 1nat, 0nat,
{
    match ty {
        TypeView::Primitive(p) => {},
        TypeView::Message(sub) => {
            lemma_message_layout(defs, sub, start, nested_prefix(qname, sub), visiting);
        },
    }
}

proof fn lemma_repeat_layout(
    defs: Seq<FormatView>,
    ty: TypeView,
    base: Seq<char>,
    count: int,
    start: int,
    visiting: Set<Seq<char>>,
)
    requires
        0 <= start <= 0xFFFF,
    ensures
        sound(flat_repeat(defs, ty, base, count, start, visiting), start),
    decreases remaining(defs, visiting), 2nat, (if count > 0 {
        count as nat
    } else {
        0nat
    }),
{
    if count > 0 {
        lemma_repeat_layout(defs, ty, base, count - 1, start, visiting);
        match flat_repeat(defs, ty, base, count - 1, start, visiting) {
            Ok(before) => {
                let name = base + crate::stream_parser::flatten::index_suffix((count - 1) as nat);
                lemma_type_layout(defs, ty, name, before.end, visiting);
                match flat_type(defs, ty, name, before.end, visiting) {
                    Ok(this) => {
                        lemma_laid_out_concat(
                            before.fields,
                            this.fields,
                            start,
                            before.end,
                            this.end,
                        );
                    },
                    Err(_) => {},
                }
            },
            Err(_) => {},
        }
    }
}

proof fn lemma_field_layout(
    defs: Seq<FormatView>,
    field: FieldView,
    start: int,
    prefix: Seq<char>,
    visiting: Set<Seq<char>>,
)
    requires
        0 <= start <= 0xFFFF,
    ensures
        sound(flat_field(defs, field, start, prefix, visiting), start),
    decreases remaining(defs, visiting), 3nat, 0nat,
{
    match field.repeat {
        None => {
            lemma_type_layout(defs, field.inner, prefix + field.name, start, visiting);
        },
        Some(n) => {
            lemma_repeat_layout(defs, field.inner, prefix + field.name, n as int, start, visiting);
        },
    }
}

proof fn lemma_fields_layout(
    defs: Seq<FormatView>,
    fields: Seq<FieldView>,
    k: int,
    start: int,
    prefix: Seq<char>,
    visiting: Set<Seq<char>>,
)
    requires
        0 <= start <= 0xFFFF,
    ensures
        sound(flat_fields(defs, fields, k, start, prefix, visiting), start),
    decreases remaining(defs, visiting), 4nat, (if k > 0 {
        k as nat
    } else {
        0nat
    }),
{
    if k > 0 {
        lemma_fields_layout(defs, fields, k - 1, start, prefix, visiting);
        match flat_fields(defs, fields, k - 1, start, prefix, visiting) {
            Ok(before) => {
                lemma_field_layout(defs, fields[k - 1], before.end, prefix, visiting);
                match flat_field(defs, fields[k - 1], before.end, prefix, visiting) {
                    Ok(this) => {
                        if !is_padding(fields[k - 1].name) {
                            lemma_laid_out_concat(
                                before.fields,
                                this.fields,
                                start,
                                before.end,
                                this.end,
                            );
                        }
                    },
                    Err(_) => {},
                }
            },
            Err(_) => {},
        }
    }
}

proof fn lemma_message_layout(
    defs: Seq<FormatView>,
    name: Seq<char>,
    start: int,
    prefix: Seq<char>,
    visiting: Set<Seq<char>>,
)
    requires
        0 <= start <= 0xFFFF,
    ensures
        sound(flat_message(defs, name, start, prefix, visiting), start),
    decreases remaining(defs, visiting), 0nat, 0nat,
{
    if !visiting.contains(name) {
        match lookup(defs, name) {
            Some(i) => {
                lemma_remaining_decreases(defs, name, visiting);
                lemma_fields_layout(
                    defs,
                    defs[i].fields,
                    stop_from(defs[i].fields, prefix, 0),
                    start,
                    prefix,
                    visiting.insert(name),
                );
            },
            None => {},
        }
    }
}

/// In a flattened format the fields lie one behind the other from
/// offset 2 on, behind the message id, and none reaches beyond the
/// length of the record.
pub proof fn lemma_flattened_layout(defs: Seq<FormatView>, i: int)
    ensures
        flatten_one(defs, i) matches Ok(f) ==> 2 <= f.size && laid_out(f.fields, 2, f.size as int),
{
    lemma_message_layout(defs, defs[i].name, 2, Seq::empty(), Set::empty());
}

/// In a flattened format the offsets of the fields grow strictly. Where
/// the fields take all the room of the record behind the message id,
/// the first one stands at offset 2, each one begins where the one
/// before it ends, and the last one ends with the record.
pub proof fn lemma_flattened_offsets(defs: Seq<FormatView>, i: int)
    ensures
        flatten_one(defs, i) matches Ok(f) ==> {
            &&& forall|a: int, b: int|
                0 <= a < b < f.fields.len() ==> (#[trigger] f.fields[a]).offset < (
                #[trigger] f.fields[b]).offset
            &&& f.fields.len() > 0 && 2 + widths(f.fields) == f.size ==> {
                &&& f.fields[0].offset == 2
                &&& forall|k: int|
                    0 <= k < f.fields.len() - 1 ==> (#[trigger] f.fields[k + 1]).offset
                        == f.fields[k].offset + f.fields[k].field_type.width()
                &&& f.size == f.fields.last().offset + f.fields.last().field_type.width()
            }
        },
{
    lemma_flattened_layout(defs, i);
    match flatten_one(defs, i) {
        Ok(f) => {
            lemma_offsets_grow(f.fields, 2, f.size as int);
            if f.fields.len() > 0 && 2 + widths(f.fields) == f.size {
                lemma_without_holes(f.fields, 2, f.size as int);
            }
        },
        Err(_) => {},
    }
}

/// Every flattened format of a log is laid out so.
pub proof fn lemma_table_layout(defs: Seq<FormatView>, n: int)
    ensures
        flatten_all(defs, n) matches Ok(table) ==> forall|i: int|
            0 <= i < table.len() ==> 2 <= (#[trigger] table[i]).size && laid_out(
                table[i].fields,
                2,
                table[i].size as int,
            ),
    decreases n,
{
    if n > 0 {
        lemma_table_layout(defs, n - 1);
        lemma_flattened_layout(defs, n - 1);
    }
}

/// Fields that are laid out have offsets that grow strictly.
pub proof fn lemma_offsets_grow(fields: Seq<FlattenedFieldView>, start: int, end: int)
    requires
        laid_out(fields, start, end),
    ensures
        forall|i: int, j: int|
            0 <= i < j < fields.len() ==> (#[trigger] fields[i]).offset < (
            #[trigger] fields[j]).offset,
{
    assert forall|i: int, j: int| 0 <= i < j < fields.len() implies (#[trigger] fields[i]).offset
        < (#[trigger] fields[j]).offset by {
        assert(fields[i].field_type.width() >= 1);
    }
}

/// Fields that are laid out take no more room than there is.
pub proof fn lemma_widths_fit(fields: Seq<FlattenedFieldView>, start: int, end: int)
    requires
        laid_out(fields, start, end),
        start <= end,
    ensures
        start + widths(fields) <= end,
    decreases fields.len(),
{
    if fields.len() > 0 {
        let front = fields.drop_last();
        let last = fields.last();
        assert(last == fields[fields.len() - 1]);
        assert(laid_out(front, start, last.offset as int)) by {
            assert forall|i: int| 0 <= i < front.len() implies start <= (#[trigger] front[i]).offset
                && front[i].offset + front[i].field_type.width() <= last.offset by {
                assert(front[i] == fields[i]);
            }
            assert forall|i: int, j: int| 0 <= i < j < front.len() implies (
            #[trigger] front[i]).offset + front[i].field_type.width() <= (
            #[trigger] front[j]).offset by {
                assert(front[i] == fields[i] && front[j] == fields[j]);
            }
        }
        lemma_widths_fit(front, start, last.offset as int);
    }
}

/// Where the fields of a format take all the room of the record behind
/// the message id, the first one stands at the start, each one begins
/// where the one before it ends, and the last one ends with the record.
/// A padding field that was expanded leaves a hole, and then this does
/// not hold.
pub proof fn lemma_without_holes(fields: Seq<FlattenedFieldView>, start: int, end: int)
    requires
        laid_out(fields, start, end),
        start + widths(fields) == end,
        fields.len() > 0,
    ensures
        fields[0].offset == start,
        forall|i: int|
            0 <= i < fields.len() - 1 ==> (#[trigger] fields[i + 1]).offset == fields[i].offset
                + fields[i].field_type.width(),
        fields.last().offset + fields.last().field_type.width() == end,
    decreases fields.len(),
{
    let front = fields.drop_last();
    let last = fields.last();
    assert(last == fields[fields.len() - 1]);
    assert(laid_out(front, start, last.offset as int)) by {
        assert forall|i: int| 0 <= i < front.len() implies start <= (#[trigger] front[i]).offset
            && front[i].offset + front[i].field_type.width() <= last.offset by {
            assert(front[i] == fields[i]);
        }
        assert forall|i: int, j: int| 0 <= i < j < front.len() implies (#[trigger] front[i]).offset
            + front[i].field_type.width() <= (#[trigger] front[j]).offset by {
            assert(front[i] == fields[i] && front[j] == fields[j]);
        }
    }
    lemma_widths_fit(front, start, last.offset as int);
    if front.len() > 0 {
        lemma_without_holes(front, start, last.offset as int);
        assert(front[0] == fields[0]);
        assert(front.last() == fields[fields.len() - 2]);
        assert forall|i: int| 0 <= i < fields.len() - 1 implies (#[trigger] fields[i + 1]).offset
            == fields[i].offset + fields[i].field_type.width() by {
            if i < fields.len() - 2 {
                assert(front[i + 1] == fields[i + 1]);
                assert(front[i] == fields[i]);
            }
        }
    } else {
        assert(widths(front) == 0);
    }
}

/// An array of no items lays nothing down and takes no room.
pub proof fn lemma_empty_array(
    defs: Seq<FormatView>,
    field: FieldView,
    start: int,
    prefix: Seq<char>,
    visiting: Set<Seq<char>>,
)
    requires
        field.repeat matches Some(n) && n <= 0,
    ensures
        flat_field(defs, field, start, prefix, visiting) == Ok::<Expansion, Seq<char>>(
            Expansion { fields: Seq::empty(), end: start },
        ),
{
}

/// In a format whose fields bear different names, only the last field
/// can end the expansion.
pub proof fn lemma_stop_is_last(fields: Seq<FieldView>, prefix: Seq<char>, k: int)
    requires
        distinct_names(fields),
        0 <= k <= fields.len(),
    ensures
        stop_from(fields, prefix, k) == if k < fields.len() && elided(
            fields,
            fields.len() - 1,
            prefix,
        ) {
            fields.len() - 1
        } else {
            fields.len() as int
        },
    decreases fields.len() - k,
{
    assert(fields.len() > 0 ==> fields.last() == fields[fields.len() - 1]);
    if k < fields.len() {
        if k < fields.len() - 1 {
            assert(fields[k].name != fields[fields.len() - 1].name);
            lemma_stop_is_last(fields, prefix, k + 1);
        } else {
            assert(stop_from(fields, prefix, k + 1) == fields.len());
        }
    }
}

/// A padding field that closes a format is left out where the format is
/// expanded at the top level: the format is expanded as if the field
/// were not there, so that the field is not laid down and takes no room.
pub proof fn lemma_closing_padding(
    defs: Seq<FormatView>,
    name: Seq<char>,
    start: int,
    visiting: Set<Seq<char>>,
)
    requires
        !visiting.contains(name),
        lookup(defs, name) matches Some(i) && defs[i].fields.len() > 0 && distinct_names(
            defs[i].fields,
        ) && is_padding(defs[i].fields.last().name),
    ensures
        flat_message(defs, name, start, Seq::empty(), visiting) == flat_fields(
            defs,
            defs[lookup(defs, name)->Some_0].fields,
            defs[lookup(defs, name)->Some_0].fields.len() - 1,
            start,
            Seq::empty(),
            visiting.insert(name),
        ),
{
    let fields = defs[lookup(defs, name)->Some_0].fields;
    lemma_stop_is_last(fields, Seq::empty(), 0);
}

/// A padding field that is expanded takes its room and lays nothing
/// down: so it is with every padding field of a nested message, and
/// with one that does not close its format.
pub proof fn lemma_padding_takes_room(
    defs: Seq<FormatView>,
    fields: Seq<FieldView>,
    k: int,
    start: int,
    prefix: Seq<char>,
    visiting: Set<Seq<char>>,
    p: FlattenedFieldType,
)
    requires
        0 <= k < fields.len(),
        is_padding(fields[k].name),
        fields[k].inner == TypeView::Primitive(p),
        fields[k].repeat is None,
        flat_fields(defs, fields, k, start, prefix, visiting) matches Ok(before) && before.end
            + p.width() <= 0xFFFF,
    ensures
        flat_fields(defs, fields, k + 1, start, prefix, visiting) == Ok::<Expansion, Seq<char>>(
            Expansion {
                fields: flat_fields(defs, fields, k, start, prefix, visiting)->Ok_0.fields,
                end: flat_fields(defs, fields, k, start, prefix, visiting)->Ok_0.end + p.width(),
            },
        ),
{
    let before = flat_fields(defs, fields, k, start, prefix, visiting)->Ok_0;
    let laid = flat_type(defs, fields[k].inner, prefix + fields[k].name, before.end, visiting);
    assert(laid is Ok && laid->Ok_0.end == before.end + p.width());
    assert(flat_field(defs, fields[k], before.end, prefix, visiting) == laid);
}

} // verus!
