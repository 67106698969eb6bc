use crate::stream_parser::format::{
    DataType, Field, FieldView, Format, FormatView, MaybeRepeatedType, TypeView,
};
use crate::stream_parser::model::{
    views, FlattenedField, FlattenedFieldType, FlattenedFieldView, FlattenedFormat,
    FlattenedFormatView, ParseErrorType, UlogParseError,
};
use crate::text::{begins_with, starts_with_ascii, str_eq};
use vstd::prelude::*;
use vstd::string::*;

verus! {

/// The place of the first format called `name`, if there is one.
pub open spec fn lookup(defs: Seq<FormatView>, name: Seq<char>) -> Option<int>
    decreases defs.len(),
{
    if defs.len() == 0 {
        None
    } else {
        match lookup(defs.drop_last(), name) {
            Some(i) => Some(i),
            None => if defs.last().name == name {
                Some(defs.len() - 1)
            } else {
                None
            },
        }
    }
}

/// The names that have a format.
pub open spec fn names(defs: Seq<FormatView>) -> Set<Seq<char>> {
    defs.map_values(|f: FormatView| f.name).to_set()
}

/// How many defined names are not on the path that is being expanded.
pub open spec fn remaining(defs: Seq<FormatView>, visiting: Set<Seq<char>>) -> nat {
    names(defs).difference(visiting).len()
}

/// The format that is found is the first one of its name.
pub proof fn lemma_lookup(defs: Seq<FormatView>, name: Seq<char>)
    ensures
        match lookup(defs, name) {
            Some(i) => 0 <= i < defs.len() && defs[i].name == name && forall|j: int|
                0 <= j < i ==> defs[j].name != name,
            None => forall|j: int| 0 <= j < defs.len() ==> defs[j].name != name,
        },
    decreases defs.len(),
{
    if defs.len() > 0 {
        let front = defs.drop_last();
        lemma_lookup(front, name);
        assert(forall|j: int| 0 <= j < front.len() ==> front[j] == defs[j]);
    }
}

/// Expanding a defined name that is not on the path leaves fewer names to
/// go: this is why the expansion ends.
pub proof fn lemma_remaining_decreases(
    defs: Seq<FormatView>,
    name: Seq<char>,
    visiting: Set<Seq<char>>,
)
    requires
        lookup(defs, name) is Some,
        !visiting.contains(name),
    ensures
        remaining(defs, visiting.insert(name)) < remaining(defs, visiting),
{
    broadcast use {vstd::set::group_set_axioms, vstd::seq_lib::seq_to_set_is_finite};

    lemma_lookup(defs, name);
    let i = lookup(defs, name)->Some_0;
    let all = defs.map_values(|f: FormatView| f.name);
    assert(all[i] == name);
    assert(names(defs).contains(name));
    let before = names(defs).difference(visiting);
    let after = names(defs).difference(visiting.insert(name));
    assert(before.contains(name));
    assert(after =~= before.remove(name));
}

/// The fields that an expansion lays down, and the offset that it ends at.
pub struct Expansion {
    pub fields: Seq<FlattenedFieldView>,
    pub end: int,
}

pub open spec fn circular_reference(name: Seq<char>) -> Seq<char> {
    "Found circular reference to "@ + name
}

pub open spec fn unknown_message(name: Seq<char>) -> Seq<char> {
    "Could not find format definition for message "@ + name
}

pub open spec fn offset_overflow() -> Seq<char> {
    "offset overflow"@
}

pub open spec fn too_big(name: Seq<char>) -> Seq<char> {
    "Message is too big "@ + name
}

pub open spec fn digit(d: int) -> Seq<char> {
    if d == 0 {
        "0"@
    } else if d == 1 {
        "1"@
    } else if d == 2 {
        "2"@
    } else if d == 3 {
        "3"@
    } else if d == 4 {
        "4"@
    } else if d == 5 {
        "5"@
    } else if d == 6 {
        "6"@
    } else if d == 7 {
        "7"@
    } else if d == 8 {
        "8"@
    } else {
        "9"@
    }
}

/// A number in decimal digits.
pub open spec fn decimal(n: nat) -> Seq<char>
    decreases n,
{
    if n < 10 {
        digit(n as int)
    } else {
        decimal(n / 10) + digit((n % 10) as int)
    }
}

/// What is put behind the name of an array field for its item `i`.
pub open spec fn index_suffix(i: nat) -> Seq<char> {
    "["@ + decimal(i) + "]"@
}

/// Whether a field's name marks it as padding.
pub open spec fn is_padding(name: Seq<char>) -> bool {
    begins_with(name, "_padding"@)
}

/// Whether the expansion of a message stops before field `k`: at the top
/// level, a padding field that bears the name of the last field ends it.
pub open spec fn elided(fields: Seq<FieldView>, k: int, prefix: Seq<char>) -> bool {
    prefix.len() == 0 && is_padding(fields[k].name) && fields[k].name == fields.last().name
}

/// The number of fields, from `k` on counted from the start, that are
/// expanded before the expansion stops.
pub open spec fn stop_from(fields: Seq<FieldView>, prefix: Seq<char>, k: int) -> int
    decreases fields.len() - k,
{
    if k >= fields.len() {
        fields.len() as int
    } else if elided(fields, k, prefix) {
        k
    } else {
        stop_from(fields, prefix, k + 1)
    }
}

/// What stands before the names of the fields of the message `sub` that
/// is held in the field called `qname`: the field's name and the name of
/// the message, each with a dot behind it.
pub open spec fn nested_prefix(qname: Seq<char>, sub: Seq<char>) -> Seq<char> {
    qname + "."@ + sub + "."@
}

/// The expansion of one element type under the name `qname`, from the
/// offset `start`.
pub open spec fn flat_type(
    defs: Seq<FormatView>,
    ty: TypeView,
    qname: Seq<char>,
    start: int,
    visiting: Set<Seq<char>>,
) -> Result<Expansion, Seq<char>>
    decreases remaining(defs, visiting), 1nat, 0nat,
{
    let laid = match ty {
        TypeView::Primitive(p) => Ok(
            Expansion {
                fields: seq![
                    FlattenedFieldView { name: qname, field_type: p, offset: start as u16 },
                ],
                end: start + p.width(),
            },
        ),
        TypeView::Message(sub) => flat_message(defs, sub, start, nested_prefix(qname, sub), visiting),
    };
    match laid {
        Ok(x) => if x.end > 0xFFFF {
            Err(offset_overflow())
        } else {
            Ok(x)
        },
        Err(e) => Err(e),
    }
}

/// The expansion of the first `count` items of an array field.
pub open spec fn flat_repeat(
    defs: Seq<FormatView>,
    ty: TypeView,
    base: Seq<char>,
    count: int,
    start: int,
    visiting: Set<Seq<char>>,
) -> Result<Expansion, Seq<char>>
    decreases remaining(defs, visiting), 2nat, (if count > 0 { count as nat } else { 0nat }),
{
    if count <= 0 {
        Ok(Expansion { fields: seq![], end: start })
    } else {
        match flat_repeat(defs, ty, base, count - 1, start, visiting) {
            Err(e) => Err(e),
            Ok(before) => match flat_type(
                defs,
                ty,
                base + index_suffix((count - 1) as nat),
                before.end,
                visiting,
            ) {
                Err(e) => Err(e),
                Ok(this) => Ok(
                    Expansion { fields: before.fields + this.fields, end: this.end },
                ),
            },
        }
    }
}

/// The expansion of one declared field.
pub open spec fn flat_field(
    defs: Seq<FormatView>,
    field: FieldView,
    start: int,
    prefix: Seq<char>,
    visiting: Set<Seq<char>>,
) -> Result<Expansion, Seq<char>>
    decreases remaining(defs, visiting), 3nat, 0nat,
{
    match field.repeat {
        None => flat_type(defs, field.inner, prefix + field.name, start, visiting),
        Some(n) => flat_repeat(defs, field.inner, prefix + field.name, n as int, start, visiting),
    }
}

/// The expansion of the first `k` fields of a message. A padding field
/// takes its room and lays no field down.
pub open spec fn flat_fields(
    defs: Seq<FormatView>,
    fields: Seq<FieldView>,
    k: int,
    start: int,
    prefix: Seq<char>,
    visiting: Set<Seq<char>>,
) -> Result<Expansion, Seq<char>>
    decreases remaining(defs, visiting), 4nat, (if k > 0 { k as nat } else { 0nat }),
{
    if k <= 0 {
        Ok(Expansion { fields: seq![], end: start })
    } else {
        match flat_fields(defs, fields, k - 1, start, prefix, visiting) {
            Err(e) => Err(e),
            Ok(before) => match flat_field(defs, fields[k - 1], before.end, prefix, visiting) {
                Err(e) => Err(e),
                Ok(this) => Ok(
                    Expansion {
                        fields: if is_padding(fields[k - 1].name) {
                            before.fields
                        } else {
                            before.fields + this.fields
                        },
                        end: this.end,
                    },
                ),
            },
        }
    }
}

/// The expansion of the message called `name`, whose fields get `prefix`
/// before their names. `visiting` holds the messages that are being
/// expanded around this one.
pub open spec fn flat_message(
    defs: Seq<FormatView>,
    name: Seq<char>,
    start: int,
    prefix: Seq<char>,
    visiting: Set<Seq<char>>,
) -> Result<Expansion, Seq<char>>
    decreases remaining(defs, visiting), 0nat, 0nat,
{
    if visiting.contains(name) {
        Err(circular_reference(name))
    } else {
        match lookup(defs, name) {
            None => Err(unknown_message(name)),
            Some(i) => {
                proof {
                    lemma_remaining_decreases(defs, name, visiting);
                }
                flat_fields(
                    defs,
                    defs[i].fields,
                    stop_from(defs[i].fields, prefix, 0),
                    start,
                    prefix,
                    visiting.insert(name),
                )
            },
        }
    }
}

/// The flattened format of the format at place `i`.
pub open spec fn flatten_one(defs: Seq<FormatView>, i: int) -> Result<
    FlattenedFormatView,
    Seq<char>,
> {
    match flat_message(defs, defs[i].name, 2, Seq::empty(), Set::empty()) {
        Err(e) => Err(e),
        Ok(x) => if x.end > 0xFFFF {
            Err(too_big(defs[i].name))
        } else {
            Ok(FlattenedFormatView { name: defs[i].name, fields: x.fields, size: x.end as u16 })
        },
    }
}

/// The flattened formats of the first `n` formats, or the first failure
/// among them.
pub open spec fn flatten_all(defs: Seq<FormatView>, n: int) -> Result<
    Seq<FlattenedFormatView>,
    Seq<char>,
>
    decreases n,
{
    if n <= 0 {
        Ok(Seq::empty())
    } else {
        match flatten_all(defs, n - 1) {
            Err(e) => Err(e),
            Ok(table) => match flatten_one(defs, n - 1) {
                Err(e) => Err(e),
                Ok(f) => Ok(table.push(f)),
            },
        }
    }
}

/// The names that a stack of names holds.
pub open spec fn names_of(stack: Seq<String>) -> Set<Seq<char>> {
    views(stack).to_set()
}

/// Whether what an expanding function returned and left in the list is what
/// `model` says. After a failure the list is as it was.
pub open spec fn agrees(
    r: Result<usize, UlogParseError>,
    model: Result<Expansion, Seq<char>>,
    before: Seq<FlattenedField>,
    after: Seq<FlattenedField>,
) -> bool {
    match r {
        Ok(end) => model matches Ok(x) && x.end == end && views(after) =~= views(before)
            + x.fields,
        Err(e) => model == Err::<Expansion, Seq<char>>(e.text()) && e.kind()
            == ParseErrorType::Other && views(after) =~= views(before),
    }
}

/// A list that has grown is the list that it was once it is cut back to
/// the length that it had.
pub proof fn lemma_cut_back(before: Seq<FlattenedField>, grown: Seq<FlattenedField>)
    requires
        views(before).is_prefix_of(views(grown)),
    ensures
        views(grown.subrange(0, before.len() as int)) =~= views(before),
{
    let cut = grown.subrange(0, before.len() as int);
    assert(views(before).len() == before.len());
    assert(views(grown).len() == grown.len());
    assert forall|i: int| 0 <= i < before.len() implies views(cut)[i] == views(before)[i] by {
        assert(views(cut)[i] == cut[i]@);
        assert(views(grown)[i] == grown[i]@);
        assert(views(before)[i] == views(grown)[i]);
    }
}

/// Once an item of an array cannot be expanded, the array cannot.
pub proof fn lemma_repeat_failure_stays(
    defs: Seq<FormatView>,
    ty: TypeView,
    base: Seq<char>,
    i: int,
    n: int,
    start: int,
    visiting: Set<Seq<char>>,
)
    requires
        i <= n,
        flat_repeat(defs, ty, base, i, start, visiting) is Err,
    ensures
        flat_repeat(defs, ty, base, n, start, visiting) == flat_repeat(
            defs,
            ty,
            base,
            i,
            start,
            visiting,
        ),
    decreases n - i,
{
    if i < n {
        lemma_repeat_failure_stays(defs, ty, base, i, n - 1, start, visiting);
    }
}

/// Once a field cannot be expanded, the fields behind it are not looked
/// at.
pub proof fn lemma_fields_failure_stays(
    defs: Seq<FormatView>,
    fields: Seq<FieldView>,
    k: int,
    n: int,
    start: int,
    prefix: Seq<char>,
    visiting: Set<Seq<char>>,
)
    requires
        k <= n,
        flat_fields(defs, fields, k, start, prefix, visiting) is Err,
    ensures
        flat_fields(defs, fields, n, start, prefix, visiting) == flat_fields(
            defs,
            fields,
            k,
            start,
            prefix,
            visiting,
        ),
    decreases n - k,
{
    if k < n {
        lemma_fields_failure_stays(defs, fields, k, n - 1, start, prefix, visiting);
    }
}

fn digit_str(d: u16) -> (r: &'static str)
    requires
        d < 10,
    ensures
        r@ == digit(d as int),
{
    match d {
        0 => "0",
        1 => "1",
        2 => "2",
        3 => "3",
        4 => "4",
        5 => "5",
        6 => "6",
        7 => "7",
        8 => "8",
        _ => "9",
    }
}

/// Writes `n` in decimal digits behind `s`.
pub fn append_decimal(s: &mut String, n: u16)
    ensures
        final(s)@ == old(s)@ + decimal(n as nat),
    decreases n,
{
    if n >= 10 {
        append_decimal(s, n / 10);
    }
    s.append(digit_str(n % 10));
    assert(s@ =~= old(s)@ + decimal(n as nat));
}

/// Whether `name` is on the stack.
pub fn contains_name(stack: &Vec<String>, name: &str) -> (r: bool)
    ensures
        r == names_of(stack@).contains(name@),
{
    let mut i: usize = 0;
    while i < stack.len()
        invariant
            i <= stack.len(),
            forall|j: int| 0 <= j < i ==> stack@[j]@ != name@,
        decreases stack.len() - i,
    {
        if str_eq(stack[i].as_str(), name) {
            assert(views(stack@)[i as int] == name@);
            return true;
        }
        i += 1;
    }
    assert forall|j: int| 0 <= j < views(stack@).len() implies views(stack@)[j] != name@ by {
        assert(views(stack@)[j] == stack@[j]@);
    }
    false
}

/// Looks for the first format called `name`.
pub fn find_format(message_formats: &Vec<Format>, name: &str) -> (r: Option<usize>)
    ensures
        match r {
            Some(i) => lookup(views(message_formats@), name@) == Some(i as int) && i
                < message_formats@.len(),
            None => lookup(views(message_formats@), name@) is None,
        },
{
    let ghost defs = views(message_formats@);
    proof {
        lemma_lookup(defs, name@);
    }
    let mut i: usize = 0;
    while i < message_formats.len()
        invariant
            i <= message_formats.len(),
            defs == views(message_formats@),
            lookup(defs, name@) is None ==> forall|j: int|
                0 <= j < defs.len() ==> defs[j].name != name@,
            forall|j: int| 0 <= j < i ==> defs[j].name != name@,
        decreases message_formats.len() - i,
    {
        if str_eq(message_formats[i].message_name.as_str(), name) {
            proof {
                assert(defs[i as int].name == name@);
                lemma_lookup(defs, name@);
            }
            return Some(i);
        }
        i += 1;
    }
    None
}

/// The number of fields that are expanded before the expansion of a
/// message stops.
pub fn elision_point(fields: &Vec<Field>, top_level: bool) -> (r: usize)
    ensures
        r <= fields@.len(),
        forall|prefix: Seq<char>|
            (prefix.len() == 0) == top_level ==> r == #[trigger] stop_from(
                views(fields@),
                prefix,
                0,
            ),
{
    let ghost all = views(fields@);
    if !top_level || fields.len() == 0 {
        proof {
            assert forall|prefix: Seq<char>| (prefix.len() == 0) == top_level implies fields@.len()
                == #[trigger] stop_from(all, prefix, 0) by {
                lemma_no_stop(all, prefix, 0);
            }
        }
        return fields.len();
    }
    let last = fields.len() - 1;
    let mut k: usize = 0;
    while k < fields.len()
        invariant
            k <= fields.len(),
            last == fields.len() - 1,
            all == views(fields@),
            top_level,
            forall|prefix: Seq<char>|
                prefix.len() == 0 ==> #[trigger] stop_from(all, prefix, 0) == stop_from(
                    all,
                    prefix,
                    k as int,
                ),
        decreases fields.len() - k,
    {
        proof {
            reveal_strlit("_padding");
        }
        let name = fields[k].field_name.as_str();
        assert(all[k as int].name == name@);
        assert(all.last().name == fields@[last as int].field_name@);
        if starts_with_ascii(name, "_padding") && str_eq(name, fields[last].field_name.as_str()) {
            return k;
        }
        k += 1;
    }
    fields.len()
}

/// Within another message, and in a message without fields, the
/// expansion stops at no field.
pub proof fn lemma_no_stop(fields: Seq<FieldView>, prefix: Seq<char>, k: int)
    requires
        prefix.len() != 0 || fields.len() == 0,
        0 <= k,
    ensures
        stop_from(fields, prefix, k) == fields.len(),
    decreases fields.len() - k,
{
    if k < fields.len() {
        lemma_no_stop(fields, prefix, k + 1);
    }
}

fn lay_primitive(
    list_to_append_to: &mut Vec<FlattenedField>,
    qualified_field_name: String,
    field_type: FlattenedFieldType,
    offset: usize,
) -> (r: Result<usize, UlogParseError>)
    requires
        offset <= 0xFFFF,
    ensures
        r == Ok::<usize, UlogParseError>((offset + field_type.width()) as usize),
        views(final(list_to_append_to)@) == views(old(list_to_append_to)@) + seq![
            FlattenedFieldView {
                name: qualified_field_name@,
                field_type: field_type,
                offset: offset as u16,
            },
        ],
{
    list_to_append_to.push(
        FlattenedField {
            flattened_field_name: qualified_field_name,
            field_type,
            offset: offset as u16,
        },
    );
    Ok(offset + field_type.byte_width())
}

/// Expands one element type under the name `qualified_field_name`: a
/// primitive is laid down at `offset`, a message is expanded field by field.
/// Returns the offset behind what was laid down, which must fit in 16 bits.
pub fn flatten_data_type(
    data_type: &DataType,
    qualified_field_name: String,
    offset: usize,
    message_formats: &Vec<Format>,
    already_added_messages: &mut Vec<String>,
    list_to_append_to: &mut Vec<FlattenedField>,
) -> (r: Result<usize, UlogParseError>)
    requires
        offset <= 0xFFFF,
    ensures
        final(already_added_messages)@ == old(already_added_messages)@,
        agrees(
            r,
            flat_type(
                views(message_formats@),
                data_type@,
                qualified_field_name@,
                offset as int,
                names_of(old(already_added_messages)@),
            ),
            old(list_to_append_to)@,
            final(list_to_append_to)@,
        ),
    decreases remaining(views(message_formats@), names_of(old(already_added_messages)@)), 1nat, 0nat,
{
    let length_before = list_to_append_to.len();
    let laid = match data_type {
        DataType::Int8 => lay_primitive(
            list_to_append_to,
            qualified_field_name,
            FlattenedFieldType::Int8,
            offset,
        ),
        DataType::UInt8 => lay_primitive(
            list_to_append_to,
            qualified_field_name,
            FlattenedFieldType::UInt8,
            offset,
        ),
        DataType::Int16 => lay_primitive(
            list_to_append_to,
            qualified_field_name,
            FlattenedFieldType::Int16,
            offset,
        ),
        DataType::UInt16 => lay_primitive(
            list_to_append_to,
            qualified_field_name,
            FlattenedFieldType::UInt16,
            offset,
        ),
        DataType::Int32 => lay_primitive(
            list_to_append_to,
            qualified_field_name,
            FlattenedFieldType::Int32,
            offset,
        ),
        DataType::UInt32 => lay_primitive(
            list_to_append_to,
            qualified_field_name,
            FlattenedFieldType::UInt32,
            offset,
        ),
        DataType::Int64 => lay_primitive(
            list_to_append_to,
            qualified_field_name,
            FlattenedFieldType::Int64,
            offset,
        ),
        DataType::UInt64 => lay_primitive(
            list_to_append_to,
            qualified_field_name,
            FlattenedFieldType::UInt64,
            offset,
        ),
        DataType::Float => lay_primitive(
            list_to_append_to,
            qualified_field_name,
            FlattenedFieldType::Float,
            offset,
        ),
        DataType::Double => lay_primitive(
            list_to_append_to,
            qualified_field_name,
            FlattenedFieldType::Double,
            offset,
        ),
        DataType::Bool => lay_primitive(
            list_to_append_to,
            qualified_field_name,
            FlattenedFieldType::Bool,
            offset,
        ),
        DataType::Char => lay_primitive(
            list_to_append_to,
            qualified_field_name,
            FlattenedFieldType::Char,
            offset,
        ),
        DataType::Message(message_name) => {
            let mut prefix = qualified_field_name;
            prefix.append(".");
            prefix.append(message_name.as_str());
            prefix.append(".");
            add_flattened_message(
                message_name,
                offset,
                message_formats,
                prefix,
                already_added_messages,
                list_to_append_to,
            )
        },
    };
    match laid {
        Ok(end) => {
            if end > 0xFFFF {
                proof {
                    assert(views(old(list_to_append_to)@).is_prefix_of(views(list_to_append_to@)));
                    lemma_cut_back(old(list_to_append_to)@, list_to_append_to@);
                }
                list_to_append_to.truncate(length_before);
                Err(UlogParseError::new(ParseErrorType::Other, "offset overflow"))
            } else {
                Ok(end)
            }
        },
        Err(e) => Err(e),
    }
}

/// Expands one declared field: once, or once for each item of an array.
pub fn flatten_field(
    field: &Field,
    offset: usize,
    message_formats: &Vec<Format>,
    hierarchical_message_prefix: String,
    already_added_messages: &mut Vec<String>,
    list_to_append_to: &mut Vec<FlattenedField>,
) -> (r: Result<usize, UlogParseError>)
    requires
        offset <= 0xFFFF,
    ensures
        final(already_added_messages)@ == old(already_added_messages)@,
        agrees(
            r,
            flat_field(
                views(message_formats@),
                field@,
                offset as int,
                hierarchical_message_prefix@,
                names_of(old(already_added_messages)@),
            ),
            old(list_to_append_to)@,
            final(list_to_append_to)@,
        ),
    decreases remaining(views(message_formats@), names_of(old(already_added_messages)@)), 3nat, 0nat,
{
    let ghost defs = views(message_formats@);
    let ghost visiting = names_of(already_added_messages@);
    let ghost base = hierarchical_message_prefix@ + field.field_name@;
    let length_before = list_to_append_to.len();
    match &field.field_type {
        MaybeRepeatedType::Repeated(dt, n) => {
            let mut at = offset;
            let mut i: i16 = 0;
            let ghost start = offset as int;
            let ghost mut added: Seq<FlattenedFieldView> = Seq::empty();
            while i < *n
                invariant
                    0 <= i,
                    i == 0 || i <= *n,
                    at <= 0xFFFF,
                    defs == views(message_formats@),
                    already_added_messages@ == old(already_added_messages)@,
                    visiting == names_of(already_added_messages@),
                    base == hierarchical_message_prefix@ + field.field_name@,
                    field@.inner == dt@,
                    field@.repeat == Some(*n),
                    start == offset,
                    length_before == old(list_to_append_to)@.len(),
                    flat_repeat(defs, dt@, base, i as int, start, visiting) == Ok::<
                        Expansion,
                        Seq<char>,
                    >(Expansion { fields: added, end: at as int }),
                    views(list_to_append_to@) =~= views(old(list_to_append_to)@) + added,
                decreases *n - i,
            {
                let mut name = hierarchical_message_prefix.clone();
                name.append(field.field_name.as_str());
                name.append("[");
                append_decimal(&mut name, i as u16);
                name.append("]");
                assert(name@ =~= base + index_suffix(i as nat));
                match flatten_data_type(
                    dt,
                    name,
                    at,
                    message_formats,
                    already_added_messages,
                    list_to_append_to,
                ) {
                    Ok(end) => {
                        proof {
                            let this = flat_type(
                                defs,
                                dt@,
                                base + index_suffix(i as nat),
                                at as int,
                                visiting,
                            )->Ok_0;
                            assert(views(list_to_append_to@) =~= views(old(list_to_append_to)@) + (
                            added + this.fields));
                            added = added + this.fields;
                        }
                        at = end;
                    },
                    Err(e) => {
                        proof {
                            lemma_repeat_failure_stays(
                                defs,
                                dt@,
                                base,
                                i + 1,
                                *n as int,
                                start,
                                visiting,
                            );
                            assert(views(old(list_to_append_to)@).is_prefix_of(
                                views(list_to_append_to@),
                            ));
                            lemma_cut_back(old(list_to_append_to)@, list_to_append_to@);
                        }
                        list_to_append_to.truncate(length_before);
                        return Err(e);
                    },
                }
                i += 1;
            }
            Ok(at)
        },
        MaybeRepeatedType::Singular(dt) => {
            let mut name = hierarchical_message_prefix;
            name.append(field.field_name.as_str());
            flatten_data_type(
                dt,
                name,
                offset,
                message_formats,
                already_added_messages,
                list_to_append_to,
            )
        },
    }
}

/// Expands the message called `message_name` field by field, with
/// `hierarchical_message_prefix` before each name. A message that is
/// being expanded around this one may not occur in it. Padding fields
/// take their room and lay nothing down; at the top level a closing
/// padding field ends the expansion.
pub fn add_flattened_message(
    message_name: &String,
    offset: usize,
    message_formats: &Vec<Format>,
    hierarchical_message_prefix: String,
    already_added_messages: &mut Vec<String>,
    list_to_append_to: &mut Vec<FlattenedField>,
) -> (r: Result<usize, UlogParseError>)
    requires
        offset <= 0xFFFF,
    ensures
        final(already_added_messages)@ == old(already_added_messages)@,
        agrees(
            r,
            flat_message(
                views(message_formats@),
                message_name@,
                offset as int,
                hierarchical_message_prefix@,
                names_of(old(already_added_messages)@),
            ),
            old(list_to_append_to)@,
            final(list_to_append_to)@,
        ),
    decreases remaining(views(message_formats@), names_of(old(already_added_messages)@)), 0nat, 0nat,
{
    let ghost defs = views(message_formats@);
    let ghost outer = names_of(already_added_messages@);
    if contains_name(already_added_messages, message_name.as_str()) {
        let mut text = "Found circular reference to ".to_owned();
        text.append(message_name.as_str());
        return Err(UlogParseError::other(text));
    }
    let found = match find_format(message_formats, message_name.as_str()) {
        Some(found) => found,
        None => {
            let mut text = "Could not find format definition for message ".to_owned();
            text.append(message_name.as_str());
            return Err(UlogParseError::other(text));
        },
    };
    let fields = &message_formats[found].fields;
    let ghost specs = views(fields@);
    assert(specs == defs[found as int].fields);
    let stop = elision_point(fields, hierarchical_message_prefix.as_str().is_empty());
    assert(stop == stop_from(specs, hierarchical_message_prefix@, 0));
    already_added_messages.push(message_name.clone());
    let ghost visiting = names_of(already_added_messages@);
    proof {
        assert(views(already_added_messages@) =~= views(old(already_added_messages)@).push(
            message_name@,
        ));
        assert(visiting =~= outer.insert(message_name@)) by {
            let inner = views(already_added_messages@);
            let before = views(old(already_added_messages)@);
            assert forall|x: Seq<char>| visiting.contains(x) implies outer.insert(
                message_name@,
            ).contains(x) by {
                let j = choose|j: int| 0 <= j < inner.len() && inner[j] == x;
                if j < before.len() {
                    assert(before[j] == x);
                }
            }
            assert forall|x: Seq<char>| outer.insert(message_name@).contains(x) implies visiting.contains(
                x,
            ) by {
                if x == message_name@ {
                    assert(inner[inner.len() - 1] == x);
                } else {
                    let j = choose|j: int| 0 <= j < before.len() && before[j] == x;
                    assert(inner[j] == x);
                }
            }
        }
        lemma_remaining_decreases(defs, message_name@, outer);
    }
    let mut padding_trash_vec: Vec<FlattenedField> = Vec::new();
    let length_before = list_to_append_to.len();
    let mut at = offset;
    let ghost start = offset as int;
    assert(flat_message(defs, message_name@, start, hierarchical_message_prefix@, outer)
        == flat_fields(defs, specs, stop as int, start, hierarchical_message_prefix@, visiting));
    let ghost mut added: Seq<FlattenedFieldView> = Seq::empty();
    let mut k: usize = 0;
    while k < stop
        invariant
            k <= stop <= fields@.len(),
            at <= 0xFFFF,
            start == offset,
            length_before == old(list_to_append_to)@.len(),
            flat_message(defs, message_name@, start, hierarchical_message_prefix@, outer)
                == flat_fields(defs, specs, stop as int, start, hierarchical_message_prefix@, visiting),
            defs == views(message_formats@),
            specs == views(fields@),
            already_added_messages@ == old(already_added_messages)@.push(*message_name),
            visiting == names_of(already_added_messages@),
            remaining(defs, visiting) < remaining(defs, outer),
            outer == names_of(old(already_added_messages)@),
            flat_fields(defs, specs, k as int, start, hierarchical_message_prefix@, visiting)
                == Ok::<Expansion, Seq<char>>(Expansion { fields: added, end: at as int }),
            views(list_to_append_to@) =~= views(old(list_to_append_to)@) + added,
        decreases stop - k,
    {
        let field = &fields[k];
        assert(specs[k as int] == field@);
        proof {
            reveal_strlit("_padding");
        }
        let padding = starts_with_ascii(field.field_name.as_str(), "_padding");
        assert(padding == is_padding(specs[k as int].name));
        let ghost this = flat_field(
            defs,
            field@,
            at as int,
            hierarchical_message_prefix@,
            visiting,
        );
        let expanded = if padding {
            flatten_field(
                field,
                at,
                message_formats,
                hierarchical_message_prefix.clone(),
                already_added_messages,
                &mut padding_trash_vec,
            )
        } else {
            flatten_field(
                field,
                at,
                message_formats,
                hierarchical_message_prefix.clone(),
                already_added_messages,
                list_to_append_to,
            )
        };
        match expanded {
            Ok(end) => {
                proof {
                    if !padding {
                        assert(views(list_to_append_to@) =~= views(old(list_to_append_to)@) + (added
                            + this->Ok_0.fields));
                        added = added + this->Ok_0.fields;
                    }
                }
                at = end;
            },
            Err(e) => {
                proof {
                    lemma_fields_failure_stays(
                        defs,
                        specs,
                        k + 1,
                        stop as int,
                        start,
                        hierarchical_message_prefix@,
                        visiting,
                    );
                    assert(views(old(list_to_append_to)@).is_prefix_of(views(list_to_append_to@)));
                    lemma_cut_back(old(list_to_append_to)@, list_to_append_to@);
                }
                list_to_append_to.truncate(length_before);
                already_added_messages.pop();
                assert(already_added_messages@ =~= old(already_added_messages)@);
                return Err(e);
            },
        }
        k += 1;
    }
    already_added_messages.pop();
    assert(already_added_messages@ =~= old(already_added_messages)@);
    Ok(at)
}

/// Flattens every format: each is expanded from offset 2, behind the
/// message id, with nothing before its field names. The first format
/// that cannot be expanded makes the whole fail.
pub fn flatten_format(message_formats: &Vec<Format>) -> (r: Result<
    Vec<FlattenedFormat>,
    UlogParseError,
>)
    ensures
        match r {
            Ok(table) => flatten_all(views(message_formats@), message_formats@.len() as int)
                == Ok::<Seq<FlattenedFormatView>, Seq<char>>(views(table@)),
            Err(e) => flatten_all(views(message_formats@), message_formats@.len() as int)
                == Err::<Seq<FlattenedFormatView>, Seq<char>>(e.text()) && e.kind()
                == ParseErrorType::Other,
        },
{
    let ghost defs = views(message_formats@);
    let mut result: Vec<FlattenedFormat> = Vec::new();
    let mut i: usize = 0;
    assert(views(result@) =~= Seq::<FlattenedFormatView>::empty());
    while i < message_formats.len()
        invariant
            i <= message_formats.len(),
            defs == views(message_formats@),
            flatten_all(defs, i as int) == Ok::<Seq<FlattenedFormatView>, Seq<char>>(
                views(result@),
            ),
        decreases message_formats.len() - i,
    {
        let mut already_added_messages: Vec<String> = Vec::new();
        let mut flattened_fields: Vec<FlattenedField> = Vec::new();
        let message_name = &message_formats[i].message_name;
        assert(defs[i as int].name == message_name@);
        assert(names_of(already_added_messages@) =~= Set::<Seq<char>>::empty());
        let prefix = String::new();
        let ghost before = views(result@);
        match add_flattened_message(
            message_name,
            2,
            message_formats,
            prefix,
            &mut already_added_messages,
            &mut flattened_fields,
        ) {
            Err(e) => {
                proof {
                    lemma_flatten_failure_stays(defs, i + 1, message_formats@.len() as int);
                }
                return Err(e);
            },
            Ok(offset) => {
                if offset > 0xFFFF {
                    let mut text = "Message is too big ".to_owned();
                    text.append(message_name.as_str());
                    proof {
                        lemma_flatten_failure_stays(defs, i + 1, message_formats@.len() as int);
                    }
                    return Err(UlogParseError::other(text));
                }
                assert(views(flattened_fields@) =~= flatten_one(defs, i as int)->Ok_0.fields);
                match FlattenedFormat::new(message_name.clone(), flattened_fields, offset as u16) {
                    Ok(flattened) => {
                        result.push(flattened);
                        assert(views(result@) =~= before.push(flattened@));
                    },
                    Err(e) => {
                        return Err(e);
                    },
                }
            },
        }
        i += 1;
    }
    Ok(result)
}

/// Once a format cannot be flattened, the formats cannot.
pub proof fn lemma_flatten_failure_stays(defs: Seq<FormatView>, i: int, n: int)
    requires
        i <= n,
        flatten_all(defs, i) is Err,
    ensures
        flatten_all(defs, n) == flatten_all(defs, i),
    decreases n - i,
{
    if i < n {
        lemma_flatten_failure_stays(defs, i, n - 1);
    }
}

} // verus!
