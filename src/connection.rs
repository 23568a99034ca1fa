use vstd::prelude::*;

use crate::binary_parsing::{
    feed, initial_model, model_wf, step_header, ByteStreamReadingState, DecoderModel,
    ParsedBinaryStream,
};
use crate::frame_laws::lemma_feed_wf;

verus! {

/// A state that waits for more input: no finished frame, no payload already whole.
pub open spec fn awaiting_input(m: DecoderModel) -> bool {
    &&& model_wf(m)
    &&& !(m is Done)
    &&& m is Payload ==> m->Payload_data.len() < m->Payload_length
}

/// The tag and payload of each frame.
pub open spec fn frames_view(frames: Seq<ParsedBinaryStream>) -> Seq<(u16, Seq<u8>)> {
    frames.map_values(|p: ParsedBinaryStream| (p.type_tag, p.payload_as_bytes@))
}

/// What a connection makes of the bytes `s` read in the state `m`: the tag and
/// payload of each frame they finish, in order, each remainder going to a fresh
/// decoder, and the state that then waits for the next read.
pub open spec fn split_frames(m: DecoderModel, s: Seq<u8>) -> (Seq<(u16, Seq<u8>)>, DecoderModel)
    decreases s.len(),
{
    let d = feed(m, s);
    if d is Done && d->Done_rest.len() < s.len() {
        let more = split_frames(initial_model(), d->Done_rest);
        (seq![(d->Done_tag, d->Done_data)] + more.0, more.1)
    } else {
        (Seq::empty(), d)
    }
}

/// A state waiting for input that finishes a frame consumes at least one byte.
pub proof fn lemma_done_consumes(m: DecoderModel, s: Seq<u8>)
    requires
        awaiting_input(m),
    ensures
        feed(m, s) is Done ==> feed(m, s)->Done_rest.len() < s.len(),
        !(feed(m, s) is Done) ==> awaiting_input(feed(m, s)),
    decreases s.len(),
{
    lemma_feed_wf(m, s);
    if !(m is Payload) && s.len() > 0 {
        let next = step_header(m, s[0]);
        if next is Payload {
            lemma_feed_wf(next, s.subrange(1, s.len() as int));
        } else {
            lemma_done_consumes(next, s.subrange(1, s.len() as int));
        }
    }
}

/// Feeds the bytes of one read to a connection's decoder and takes every frame
/// they finish; returns those frames, in order, and the state for the next read.
pub fn drain_frames<'a, 'b>(state: ByteStreamReadingState<'a>, bytes: &'a [u8]) -> (r: (
    Vec<ParsedBinaryStream>,
    ByteStreamReadingState<'b>,
))
    requires
        awaiting_input(state@),
    ensures
        awaiting_input(r.1@),
        r.1@ == split_frames(state@, bytes@).1,
        frames_view(r.0@) == split_frames(state@, bytes@).0,
{
    let mut frames: Vec<ParsedBinaryStream> = Vec::new();
    let ghost mut from = state@;
    let ghost mut input = bytes@;
    let mut current = state.advance(bytes);
    loop
        invariant
            awaiting_input(from),
            current@ == feed(from, input),
            split_frames(state@, bytes@).0 == frames_view(frames@) + split_frames(from, input).0,
            split_frames(state@, bytes@).1 == split_frames(from, input).1,
        decreases input.len(),
    {
        proof {
            lemma_done_consumes(from, input);
        }
        match current {
            ByteStreamReadingState::Done { parsed, rest } => {
                let ghost frame = (parsed.type_tag, parsed.payload_as_bytes@);
                proof {
                    assert(split_frames(from, input).0 == seq![frame] + split_frames(
                        initial_model(),
                        rest@,
                    ).0);
                    assert(frames_view(frames@.push(parsed)) =~= frames_view(frames@).push(frame));
                    assert(frames_view(frames@).push(frame) + split_frames(initial_model(), rest@).0
                        =~= frames_view(frames@) + split_frames(from, input).0);
                    from = initial_model();
                    input = rest@;
                }
                frames.push(parsed);
                current = ByteStreamReadingState::start(rest);
            },
            other => {
                proof {
                    assert(split_frames(from, input).0 =~= Seq::<(u16, Seq<u8>)>::empty());
                    assert(frames_view(frames@) + Seq::<(u16, Seq<u8>)>::empty() =~= frames_view(
                        frames@,
                    ));
                }
                return (frames, other.detach());
            },
        }
    }
}

} // verus!
