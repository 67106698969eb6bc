use crate::stream_parser::model::DeliveryView;
use crate::stream_parser::parser::{
    consume, delivered, dispatch, drop_carry, drops, fits, frame, frame_len, lemma_frame_grows,
    lemma_frame_len, lemma_run_registrations, lemma_run_waiting, run, step, taken, tidy, waiting,
    window, with_carry, Frame, ParseStatus, ParserView, Run, Step, MAX_MESSAGE_SIZE,
};
use crate::unpack::le_value;
use vstd::prelude::*;

verus! {

/// A step does not look at what the parser has left over, and leaves it
/// as it is.
pub proof fn lemma_step_ignores_carry(p: ParserView, carry: Seq<u8>, bytes: Seq<u8>)
    ensures
        step(with_carry(p, carry), bytes) == (Step {
            state: with_carry(step(p, bytes).state, carry),
            delivery: step(p, bytes).delivery,
            failure: step(p, bytes).failure,
        }),
{
    reveal(dispatch);
}

/// Reading does not look at what the parser has left over.
pub proof fn lemma_run_ignores_carry(p: ParserView, carry: Seq<u8>, bytes: Seq<u8>)
    ensures
        run(with_carry(p, carry), bytes) == run(p, bytes),
    decreases bytes.len(),
{
    let q = with_carry(p, carry);
    lemma_step_ignores_carry(p, carry, bytes);
    let s = step(p, bytes);
    let k = taken(p, bytes);
    assert(taken(q, bytes) == k);
    if s.failure is None && 0 < k <= bytes.len() {
        let tail = bytes.subrange(k, bytes.len() as int);
        lemma_run_ignores_carry(s.state, carry, tail);
    }
}

/// Reading bytes and then more bytes does what reading them all at once
/// does: what the first reading leaves over is read again with what
/// comes behind it.
pub proof fn lemma_run_append(p: ParserView, x: Seq<u8>, y: Seq<u8>)
    ensures
        run(p, x).failure is Some ==> run(p, x + y) == run(p, x),
        run(p, x).failure is None ==> run(p, x + y) == (Run {
            state: run(run(p, x).state, run(p, x).state.carry + y).state,
            deliveries: run(p, x).deliveries + run(
                run(p, x).state,
                run(p, x).state.carry + y,
            ).deliveries,
            failure: run(run(p, x).state, run(p, x).state.carry + y).failure,
        }),
    decreases x.len(),
{
    let beginning = p.status == ParseStatus::Beginning;
    let s = step(p, x);
    let k = taken(p, x);
    let first = run(p, x);
    lemma_frame_len(beginning, x);
    if frame(beginning, x) is NeedMore {
        assert(first == Run { state: with_carry(p, x), deliveries: Seq::empty(), failure: None });
        lemma_run_ignores_carry(p, x, x + y);
        let second = run(first.state, first.state.carry + y);
        assert(first.deliveries + second.deliveries =~= second.deliveries);
    } else {
        lemma_frame_grows(beginning, x, y);
        lemma_frame_len(beginning, x + y);
        assert(step(p, x + y) == s);
        assert(taken(p, x + y) == k);
        if s.failure is None {
            let tail = x.subrange(k, x.len() as int);
            assert((x + y).subrange(k, (x + y).len() as int) =~= tail + y);
            lemma_run_append(s.state, tail, y);
            let first_tail = run(s.state, tail);
            if first_tail.failure is None {
                let second = run(first_tail.state, first_tail.state.carry + y);
                assert(delivered(s) + (first_tail.deliveries + second.deliveries) =~= (delivered(s)
                    + first_tail.deliveries) + second.deliveries);
            }
        }
    }
}

/// Whether bytes of a piece are lost: the piece is not empty, and it is
/// dropped.
pub open spec fn loses(p: ParserView, chunk: Seq<u8>) -> bool {
    chunk.len() > 0 && drops(p, chunk)
}

/// A piece that is not dropped is read as one with what was left over.
pub proof fn lemma_consume_is_run(p: ParserView, chunk: Seq<u8>)
    requires
        !drops(p, chunk),
    ensures
        consume(p, chunk) == run(drop_carry(p), p.carry + chunk),
{
    if p.carry.len() == 0 {
        assert(p.carry + chunk =~= chunk);
        assert(drop_carry(p) == p);
    }
}

/// An empty piece changes nothing.
pub proof fn lemma_consume_nothing(p: ParserView)
    requires
        waiting(p),
    ensures
        consume(p, Seq::<u8>::empty()) == (Run {
            state: p,
            deliveries: Seq::<DeliveryView>::empty(),
            failure: None,
        }),
{
    let nothing = Seq::<u8>::empty();
    if p.carry.len() == 0 {
        assert(p.carry =~= nothing);
        assert(with_carry(p, nothing) == p);
        lemma_frame_len(p.status == ParseStatus::Beginning, nothing);
    } else {
        assert(window(p.carry, nothing) =~= p.carry) by {
            lemma_frame_len(p.status == ParseStatus::Beginning, p.carry);
        }
    }
}

/// A piece that is not dropped is not dropped either when more bytes come
/// behind it.
pub proof fn lemma_longer_piece_stays(p: ParserView, a: Seq<u8>, b: Seq<u8>)
    requires
        waiting(p),
        !drops(p, a),
    ensures
        !drops(p, a + b),
{
    let beginning = p.status == ParseStatus::Beginning;
    if p.carry.len() > 0 {
        let w = window(p.carry, a);
        let wide = window(p.carry, a + b);
        lemma_frame_len(beginning, p.carry);
        if a.len() <= MAX_MESSAGE_SIZE - p.carry.len() {
            let more = wide.subrange(w.len() as int, wide.len() as int);
            assert(w + more =~= wide);
            lemma_frame_grows(beginning, w, more);
        } else {
            assert(w =~= wide);
        }
    }
}

/// After a piece has been taken in, what is left over holds no whole
/// frame.
pub proof fn lemma_consume_waiting(p: ParserView, chunk: Seq<u8>)
    requires
        waiting(p),
    ensures
        waiting(consume(p, chunk).state),
{
    if p.carry.len() == 0 {
        lemma_run_waiting(p, chunk);
    } else if !drops(p, chunk) {
        lemma_run_waiting(drop_carry(p), p.carry + chunk);
    }
}

/// The log may come in pieces: taking in one piece and then the next
/// hands out what taking in the two as one piece hands out, and leaves
/// the parser in the same state, as long as no bytes are lost on the
/// way. Bytes are lost where a piece comes while bytes are left over and
/// the first frame is still not whole with it.
pub proof fn lemma_consume_in_pieces(p: ParserView, a: Seq<u8>, b: Seq<u8>)
    requires
        waiting(p),
        !loses(p, a),
        consume(p, a).failure is None ==> !loses(consume(p, a).state, b),
    ensures
        consume(p, a).failure is Some ==> consume(p, a + b) == consume(p, a),
        consume(p, a).failure is None ==> consume(p, a + b) == (Run {
            state: consume(consume(p, a).state, b).state,
            deliveries: consume(p, a).deliveries + consume(consume(p, a).state, b).deliveries,
            failure: consume(consume(p, a).state, b).failure,
        }),
{
    let beginning = p.status == ParseStatus::Beginning;
    let first = consume(p, a);
    if a.len() == 0 {
        lemma_consume_nothing(p);
        assert(a + b =~= b);
        let second = consume(p, b);
        assert(first.deliveries + second.deliveries =~= second.deliveries);
    } else {
        let base = drop_carry(p);
        lemma_consume_is_run(p, a);
        lemma_run_waiting(base, p.carry + a);
        if b.len() == 0 {
            assert(a + b =~= a);
            if first.failure is None {
                lemma_consume_nothing(first.state);
                assert(first.deliveries + Seq::<DeliveryView>::empty() =~= first.deliveries);
            }
        } else {
            lemma_longer_piece_stays(p, a, b);
            lemma_consume_is_run(p, a + b);
            assert(p.carry + (a + b) =~= (p.carry + a) + b);
            lemma_run_append(base, p.carry + a, b);
            if first.failure is None {
                lemma_consume_is_run(first.state, b);
                lemma_run_ignores_carry(
                    drop_carry(first.state),
                    first.state.carry,
                    first.state.carry + b,
                );
                assert(with_carry(drop_carry(first.state), first.state.carry) == first.state);
            }
        }
    }
}

/// Taking in pieces one after the other, up to the first failure.
pub open spec fn feed(p: ParserView, pieces: Seq<Seq<u8>>) -> Run
    decreases pieces.len(),
{
    if pieces.len() == 0 {
        Run { state: p, deliveries: Seq::empty(), failure: None }
    } else {
        let first = consume(p, pieces[0]);
        if first.failure is Some {
            first
        } else {
            let rest = feed(first.state, pieces.drop_first());
            Run {
                state: rest.state,
                deliveries: first.deliveries + rest.deliveries,
                failure: rest.failure,
            }
        }
    }
}

/// The pieces put together.
pub open spec fn joined(pieces: Seq<Seq<u8>>) -> Seq<u8>
    decreases pieces.len(),
{
    if pieces.len() == 0 {
        Seq::empty()
    } else {
        pieces[0] + joined(pieces.drop_first())
    }
}

/// Whether no bytes are lost while the pieces are taken in one after the
/// other.
pub open spec fn nothing_lost(p: ParserView, pieces: Seq<Seq<u8>>) -> bool
    decreases pieces.len(),
{
    pieces.len() == 0 || (!loses(p, pieces[0]) && (consume(p, pieces[0]).failure is None
        ==> nothing_lost(consume(p, pieces[0]).state, pieces.drop_first())))
}

/// Pieces of which no bytes are lost when they come one after the other
/// are not dropped when they come as one.
pub proof fn lemma_joined_stays(p: ParserView, pieces: Seq<Seq<u8>>)
    requires
        waiting(p),
        nothing_lost(p, pieces),
    ensures
        !loses(p, joined(pieces)),
    decreases pieces.len(),
{
    if pieces.len() > 0 && p.carry.len() > 0 {
        let a = pieces[0];
        let rest = pieces.drop_first();
        if a.len() == 0 {
            lemma_consume_nothing(p);
            lemma_joined_stays(p, rest);
            assert(joined(pieces) =~= joined(rest));
        } else {
            lemma_longer_piece_stays(p, a, joined(rest));
        }
    }
}

/// The log may come in any number of pieces: taking them in one after
/// the other hands out what taking them in as one hands out, and leaves
/// the parser in the same state, as long as no bytes are lost on the
/// way.
pub proof fn lemma_pieces_read_as_one(p: ParserView, pieces: Seq<Seq<u8>>)
    requires
        waiting(p),
        nothing_lost(p, pieces),
    ensures
        feed(p, pieces) == consume(p, joined(pieces)),
    decreases pieces.len(),
{
    if pieces.len() == 0 {
        lemma_consume_nothing(p);
    } else {
        let a = pieces[0];
        let rest = pieces.drop_first();
        let first = consume(p, a);
        if first.failure is None {
            lemma_consume_waiting(p, a);
            lemma_joined_stays(first.state, rest);
            lemma_pieces_read_as_one(first.state, rest);
        }
        lemma_consume_in_pieces(p, a, joined(rest));
    }
}

/// Every data record that is handed out has the length of the format
/// that its message id is bound to when the piece has been taken in.
pub proof fn lemma_data_records_fit(p: ParserView, chunk: Seq<u8>)
    requires
        tidy(p),
    ensures
        forall|i: int|
            0 <= i < consume(p, chunk).deliveries.len() ==> fits(
                consume(p, chunk).state.data_format,
                #[trigger] consume(p, chunk).deliveries[i],
            ),
{
    if p.carry.len() == 0 {
        lemma_run_registrations(p, chunk);
    } else if !drops(p, chunk) {
        lemma_run_registrations(drop_carry(p), p.carry + chunk);
    }
}

/// A record that binds a message id that is bound already is refused,
/// and changes nothing.
pub proof fn lemma_bound_id_stays(p: ParserView, payload: Seq<u8>)
    requires
        p.status == ParseStatus::InData,
        payload.len() >= 3,
        p.data_format.registered.contains_key(le_value(payload.subrange(1, 3)) as u16),
    ensures
        dispatch(p, 0x41, payload).failure is Some,
        dispatch(p, 0x41, payload).state == p,
        dispatch(p, 0x41, payload).delivery is None,
{
    reveal(dispatch);
}

/// What is left over is never longer than the longest record.
pub proof fn lemma_carry_bounded(p: ParserView)
    requires
        waiting(p),
    ensures
        p.carry.len() <= MAX_MESSAGE_SIZE,
{
    lemma_frame_len(p.status == ParseStatus::Beginning, p.carry);
}

/// A record is not taken while no byte has come behind it: bytes that
/// end with the record hold no whole frame.
pub proof fn lemma_record_waits_for_a_byte(bytes: Seq<u8>)
    requires
        bytes.len() >= 3,
        bytes.len() == le_value(bytes.subrange(0, 2)) + 3,
    ensures
        frame(false, bytes) is NeedMore,
{
    reveal(frame);
}

/// A record without payload takes three bytes.
pub proof fn lemma_empty_record(bytes: Seq<u8>)
    requires
        bytes.len() >= 4,
        bytes[0] == 0,
        bytes[1] == 0,
    ensures
        frame(false, bytes) == (Frame::Record { tag: bytes[2], payload: Seq::<u8>::empty() }),
        frame_len(frame(false, bytes)) == 3,
{
    reveal(frame);
    let size = bytes.subrange(0, 2);
    assert(size.drop_first().drop_first() =~= Seq::<u8>::empty());
    assert(le_value(size.drop_first()) == size[1] + 256 * le_value(size.drop_first().drop_first()));
    assert(le_value(size) == 0);
    assert(bytes.subrange(3, 3) =~= Seq::<u8>::empty());
}

/// The records that need a payload refuse an empty one: the record that
/// binds a message id, the logged line and the data record.
pub proof fn lemma_empty_payload_refused(p: ParserView, tag: u8)
    requires
        tag == 0x41 || tag == 0x4C || tag == 0x44,
    ensures
        dispatch(p, tag, Seq::<u8>::empty()).failure is Some,
        dispatch(p, tag, Seq::<u8>::empty()).delivery is None,
{
    reveal(dispatch);
}

} // verus!
