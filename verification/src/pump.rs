//! Output-pump step logic.
//!
//! The pump repeatedly reads a chunk of raw bytes from the terminal's
//! master side and forwards every decoded event, in byte order, into the
//! event queue.  The read itself happens at the caller's edge; this module
//! holds the verified step applied to each read result.

use vstd::prelude::*;

use crate::decoder::{decode_events, decode_mode, lemma_decode_append, Decoder, Mode};
use crate::event::RenderEvent;

verus! {

/// Processes the result of one read from the terminal.  A zero-length
/// chunk is end of stream: the pump is done, the decoder is untouched and
/// no spurious event is enqueued.  Otherwise every event the chunk decodes
/// to is appended to the queue in byte order.
pub fn pump_chunk(dec: &mut Decoder, chunk: &[u8], queue: &mut Vec<RenderEvent>) -> (done: bool)
    ensures
        done == (chunk@.len() == 0),
        final(dec).mode == decode_mode(old(dec).mode, chunk@),
        final(queue)@ == old(queue)@ + decode_events(old(dec).mode, chunk@),
        done ==> final(queue)@ == old(queue)@ && final(dec).mode == old(dec).mode,
{
    if chunk.len() == 0 {
        proof {
            assert(queue@ + decode_events(dec.mode, chunk@) =~= queue@);
        }
        true
    } else {
        dec.feed(chunk, queue);
        false
    }
}

/// The events the pump enqueues over a whole run of reads, each chunk
/// decoded from the mode the previous chunk left behind.
pub open spec fn pumped_events(m: Mode, chunks: Seq<Seq<u8>>) -> Seq<RenderEvent>
    decreases chunks.len(),
{
    if chunks.len() == 0 {
        seq![]
    } else {
        decode_events(m, chunks[0]) + pumped_events(
            decode_mode(m, chunks[0]),
            chunks.drop_first(),
        )
    }
}

/// However the byte stream is split into reads, the queue receives the
/// same events in the same order: what the pump enqueues chunk by chunk is
/// exactly what the whole stream decodes to, so the relative order of the
/// bytes as read is preserved end to end.
pub proof fn lemma_pump_preserves_order(m: Mode, chunks: Seq<Seq<u8>>)
    ensures
        pumped_events(m, chunks) == decode_events(m, chunks.flatten()),
    decreases chunks.len(),
{
    if chunks.len() == 0 {
        assert(chunks.flatten() =~= Seq::<u8>::empty());
        assert(pumped_events(m, chunks) =~= decode_events(m, chunks.flatten()));
    } else {
        let head = chunks[0];
        let rest = chunks.drop_first();
        lemma_pump_preserves_order(decode_mode(m, head), rest);
        assert(chunks.flatten() == chunks.first() + rest.flatten());
        assert(chunks.first() == head);
        lemma_decode_append(m, head, rest.flatten());
    }
}

} // verus!
