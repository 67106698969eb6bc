use crate::stream_parser::flatten::{
    flat_field, flat_fields, flat_message, flat_repeat, flat_type, flatten_all, flatten_one,
    index_suffix, lemma_fields_failure_stays, nested_prefix, lemma_flatten_failure_stays, lemma_lookup,
    lemma_no_stop, lemma_repeat_failure_stays, lookup, stop_from,
};
use crate::stream_parser::format::{FieldView, FormatView, TypeView};
use vstd::prelude::*;

verus! {

/// Whether field `k` is a field of the message `to` that is expanded:
/// it is no array without items, and at the top level the expansion
/// does not stop before it.
pub open spec fn expands_at(fields: Seq<FieldView>, k: int, to: Seq<char>, top_level: bool) -> bool {
    &&& 0 <= k < fields.len()
    &&& top_level ==> k < stop_from(fields, Seq::empty(), 0)
    &&& fields[k].inner == TypeView::Message(to)
    &&& fields[k].repeat matches Some(n) ==> n >= 1
}

/// Whether the message `from` holds the message `to` in a field that is
/// expanded.
pub open spec fn holds(defs: Seq<FormatView>, from: Seq<char>, to: Seq<char>, top_level: bool) -> bool {
    lookup(defs, from) matches Some(i) && exists|k: int|
        expands_at(defs[i].fields, k, to, top_level)
}

/// A message cannot be expanded where a chain of messages, each held by
/// the one before it, leads from it back to itself or to a message that
/// is being expanded around it.
pub proof fn lemma_chain_fails(
    defs: Seq<FormatView>,
    chain: Seq<Seq<char>>,
    start: int,
    prefix: Seq<char>,
    visiting: Set<Seq<char>>,
)
    requires
        chain.len() >= 2,
        forall|i: int|
            0 <= i < chain.len() - 1 ==> holds(
                defs,
                #[trigger] chain[i],
                chain[i + 1],
                i == 0 && prefix.len() == 0,
            ),
        visiting.contains(chain.last()) || chain.last() == chain[0],
    ensures
        flat_message(defs, chain[0], start, prefix, visiting) is Err,
    decreases chain.len(),
{
    let name = chain[0];
    let sub = chain[1];
    if !visiting.contains(name) {
        assert(holds(defs, chain[0], chain[1], prefix.len() == 0));
        let i = lookup(defs, name)->Some_0;
        let fields = defs[i].fields;
        let top_level = prefix.len() == 0;
        let k = choose|k: int| expands_at(fields, k, sub, top_level);
        let stop = stop_from(fields, prefix, 0);
        let inner = visiting.insert(name);
        assert(k < stop) by {
            if top_level {
                assert(prefix =~= Seq::<char>::empty());
            } else {
                lemma_no_stop(fields, prefix, 0);
            }
        }
        match flat_fields(defs, fields, k, start, prefix, inner) {
            Err(_) => {
                lemma_fields_failure_stays(defs, fields, k, stop, start, prefix, inner);
            },
            Ok(before) => {
                let field = fields[k];
                let qname = match field.repeat {
                    None => prefix + field.name,
                    Some(_) => prefix + field.name + index_suffix(0),
                };
                let below = nested_prefix(qname, sub);
                assert(below.len() > 0) by {
                    reveal_strlit(".");
                }
                if chain.len() > 2 {
                    let rest = chain.subrange(1, chain.len() as int);
                    assert forall|j: int| 0 <= j < rest.len() - 1 implies holds(
                        defs,
                        #[trigger] rest[j],
                        rest[j + 1],
                        j == 0 && below.len() == 0,
                    ) by {
                        assert(rest[j] == chain[j + 1]);
                        assert(rest[j + 1] == chain[j + 2]);
                        assert(holds(defs, chain[j + 1], chain[j + 2], false));
                    }
                    assert(rest.last() == chain.last());
                    lemma_chain_fails(defs, rest, before.end, below, inner);
                }
                assert(flat_message(defs, sub, before.end, below, inner) is Err);
                assert(flat_type(defs, field.inner, qname, before.end, inner) is Err);
                match field.repeat {
                    None => {},
                    Some(n) => {
                        assert(flat_repeat(defs, field.inner, prefix + field.name, 1, before.end, inner)
                            is Err) by {
                            assert(flat_repeat(
                                defs,
                                field.inner,
                                prefix + field.name,
                                0,
                                before.end,
                                inner,
                            ) is Ok);
                        }
                        lemma_repeat_failure_stays(
                            defs,
                            field.inner,
                            prefix + field.name,
                            1,
                            n as int,
                            before.end,
                            inner,
                        );
                    },
                }
                assert(flat_field(defs, field, before.end, prefix, inner) is Err);
                assert(flat_fields(defs, fields, k + 1, start, prefix, inner) is Err);
                lemma_fields_failure_stays(defs, fields, k + 1, stop, start, prefix, inner);
            },
        }
    }
}

/// Formats cannot be flattened where a chain of messages, each held by
/// the one before it in a field that is expanded, leads from a message
/// back to itself.
pub proof fn lemma_cycle_fails(defs: Seq<FormatView>, chain: Seq<Seq<char>>)
    requires
        chain.len() >= 2,
        chain.first() == chain.last(),
        forall|i: int|
            0 <= i < chain.len() - 1 ==> holds(defs, #[trigger] chain[i], chain[i + 1], i == 0),
    ensures
        flatten_all(defs, defs.len() as int) is Err,
{
    assert(holds(defs, chain[0], chain[1], true));
    lemma_lookup(defs, chain[0]);
    let i = lookup(defs, chain[0])->Some_0;
    let nothing = Seq::<char>::empty();
    assert forall|j: int| 0 <= j < chain.len() - 1 implies holds(
        defs,
        #[trigger] chain[j],
        chain[j + 1],
        j == 0 && nothing.len() == 0,
    ) by {
        assert(holds(defs, chain[j], chain[j + 1], j == 0));
    }
    lemma_chain_fails(defs, chain, 2, nothing, Set::empty());
    assert(flatten_one(defs, i) is Err);
    assert(flatten_all(defs, i + 1) is Err);
    lemma_flatten_failure_stays(defs, i + 1, defs.len() as int);
}

} // verus!
