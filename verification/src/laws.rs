//! The round-trip guarantees of the wire format, stated on their own.
//!
//! The writer's contract pins the exact text of a record
//! ([`crate::json::json_line_of_event`]); the scanner's contract pins what
//! it returns on any input that carries such text
//! ([`crate::jparse::stream_present`]). The lemmas here close the circle:
//! serialized output is always such an input. Together they say that
//! scanning back one serialized record, or a stream of them written
//! back-to-back, yields exactly the records that were written, in order,
//! with nothing after them. They hold for every record whose field values
//! are booleans, integers and strings; floating-point values are outside
//! what verified code can speak about, so their round trip is checked by
//! tests instead.
use vstd::prelude::*;
use crate::event::EventModel;
use crate::jparse::{event_ok, stream_present, json_lines};
use crate::json::json_line_of_event;

verus! {

/// One serialized record, followed by nothing, is a stream that presents
/// exactly that record: with the scanner's contract, scanning the
/// serialized line of `em` yields `em` back.
pub proof fn lemma_round_trip_one(em: EventModel)
    requires
        event_ok(em),
    ensures
        stream_present(json_line_of_event(em), 0, seq![em]),
{
    let line = json_line_of_event(em);
    assert(json_lines(seq![em]) =~= line) by {
        assert(seq![em].skip(1) =~= Seq::<EventModel>::empty());
        assert(json_lines(seq![em]) == line + json_lines(seq![em].skip(1)));
        assert(line + Seq::<char>::empty() =~= line);
    }
    assert(line.subrange(0, line.len() as int) =~= line);
    assert forall|i: int| 0 <= i < seq![em].len() implies event_ok(#[trigger] seq![em][i]) by {
    }
}

/// Records serialized back-to-back are a stream that presents exactly
/// those records in order: with the scanner's contract, scanning the
/// concatenation yields them all, then ends.
pub proof fn lemma_round_trip_stream(es: Seq<EventModel>)
    requires
        forall|i: int| 0 <= i < es.len() ==> event_ok(#[trigger] es[i]),
    ensures
        stream_present(json_lines(es), 0, es),
{
    let text = json_lines(es);
    assert(text.subrange(0, text.len() as int) =~= text);
}

} // verus!
