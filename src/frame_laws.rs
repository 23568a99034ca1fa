use vstd::prelude::*;

use crate::binary_generation::{
    frame_bytes, group_weight, lemma_varint_length, tag_bytes, varint,
};
use crate::binary_parsing::{
    decoded_frame, feed, initial_model, length_read, model_wf, step_header, DecoderModel,
};

verus! {

/// The state after each chunk is fed, in order, to the state the previous one left.
pub open spec fn feed_chunks(m: DecoderModel, chunks: Seq<Seq<u8>>) -> DecoderModel
    decreases chunks.len(),
{
    if chunks.len() == 0 {
        m
    } else {
        feed_chunks(feed(m, chunks[0]), chunks.drop_first())
    }
}

proof fn lemma_group_weight_exceeds(s: nat)
    ensures
        group_weight(s) > s,
    decreases s,
{
    if s > 0 {
        lemma_group_weight_exceeds((s - 1) as nat);
    }
}

/// The length state turns the varint of `n`, at group `shift`, into `value + n * 128^shift`.
proof fn lemma_varint_decodes(shift: usize, value: usize, n: nat, tail: Seq<u8>)
    requires
        value + n * group_weight(shift as nat) <= usize::MAX,
    ensures
        feed((DecoderModel::Length { shift, value }), varint(n) + tail) == feed(
            length_read((value + n * group_weight(shift as nat)) as usize),
            tail,
        ),
    decreases n,
{
    let input = varint(n) + tail;
    let w = group_weight(shift as nat);
    if n >= 128 {
        assert(input.subrange(1, input.len() as int) =~= varint(n / 128) + tail);
        let low = n % 128;
        let high = n / 128;
        assert(n * w == low * w + high * (128 * w)) by (nonlinear_arith)
            requires
                n == 128 * high + low,
        ;
        assert(128 * w <= n * w) by (nonlinear_arith)
            requires
                n >= 128,
        ;
        lemma_group_weight_exceeds(shift as nat);
        assert(group_weight((shift + 1) as nat) == 128 * w);
        assert(high * (128 * w) >= 0) by (nonlinear_arith)
            requires
                w >= 0,
        ;
        let next = DecoderModel::Length { shift: (shift + 1) as usize, value: (value + low * w) as usize };
        assert(step_header(DecoderModel::Length { shift, value }, input[0]) == next);
        lemma_varint_decodes((shift + 1) as usize, (value + low * w) as usize, high, tail);
    } else {
        assert(input.subrange(1, input.len() as int) =~= tail);
        assert(step_header(DecoderModel::Length { shift, value }, input[0]) == DecoderModel::TypeTag {
            length: (value + n * w) as usize,
            read: 0,
            tag: 0,
        });
    }
}

/// Decoding the varint of any length that fits in `usize` gives that length
/// back, and the varint has the fewest 7-bit groups that hold it, one at least.
pub proof fn lemma_varint_round_trip(n: usize)
    ensures
        feed(initial_model(), varint(n as nat)) == length_read(n),
        varint(n as nat).len() >= 1,
        n < group_weight(varint(n as nat).len()),
        varint(n as nat).len() == 1 || group_weight((varint(n as nat).len() - 1) as nat) <= n,
{
    assert(group_weight(0) == 1);
    assert(varint(n as nat) + Seq::<u8>::empty() =~= varint(n as nat));
    lemma_varint_decodes(0, 0, n as nat, Seq::empty());
    lemma_varint_length(n as nat);
}

/// A whole frame followed by any bytes decodes to that frame, and leaves those bytes.
pub proof fn lemma_frame_then_rest(payload: Seq<u8>, tag: u16, rest: Seq<u8>)
    requires
        payload.len() <= usize::MAX,
    ensures
        feed(initial_model(), frame_bytes(payload, tag) + rest) == decoded_frame(payload, tag, rest),
{
    let len = payload.len() as usize;
    let after_length = tag_bytes(tag) + payload + rest;
    assert(frame_bytes(payload, tag) + rest =~= varint(len as nat) + after_length);
    assert(group_weight(0) == 1);
    lemma_varint_decodes(0, 0, len as nat, after_length);
    let one = after_length.subrange(1, after_length.len() as int);
    let two = one.subrange(1, one.len() as int);
    assert(two =~= payload + rest);
    let after_first = DecoderModel::TypeTag { length: len, read: 1, tag: (tag % 256) as u16 };
    assert(step_header(DecoderModel::TypeTag { length: len, read: 0, tag: 0 }, after_length[0])
        == after_first);
    let collecting = DecoderModel::Payload { length: len, tag, data: Seq::empty() };
    assert(step_header(after_first, one[0]) == collecting);
    assert(feed(length_read(len), after_length) == feed(after_first, one));
    assert(feed(after_first, one) == feed(collecting, two));
    let both = payload + rest;
    assert(Seq::<u8>::empty() + both.subrange(0, len as int) =~= payload);
    assert(both.subrange(len as int, both.len() as int) =~= rest);
    assert(feed(collecting, two) == decoded_frame(payload, tag, rest));
}

/// Decoding an encoded frame gives back its tag and payload, with nothing left over.
pub proof fn lemma_frame_round_trip(payload: Seq<u8>, tag: u16)
    requires
        payload.len() <= usize::MAX,
    ensures
        feed(initial_model(), frame_bytes(payload, tag)) == decoded_frame(
            payload,
            tag,
            Seq::empty(),
        ),
{
    assert(frame_bytes(payload, tag) + Seq::<u8>::empty() =~= frame_bytes(payload, tag));
    lemma_frame_then_rest(payload, tag, Seq::empty());
}

/// Two frames sent back to back: decoding yields the first and leaves exactly
/// the bytes of the second, and decoding those yields the second with nothing left.
pub proof fn lemma_pipelining(payload1: Seq<u8>, tag1: u16, payload2: Seq<u8>, tag2: u16)
    requires
        payload1.len() <= usize::MAX,
        payload2.len() <= usize::MAX,
    ensures
        feed(initial_model(), frame_bytes(payload1, tag1) + frame_bytes(payload2, tag2))
            == decoded_frame(payload1, tag1, frame_bytes(payload2, tag2)),
        frame_bytes(payload2, tag2).len() > 0,
        feed(initial_model(), frame_bytes(payload2, tag2)) == decoded_frame(
            payload2,
            tag2,
            Seq::empty(),
        ),
{
    lemma_frame_then_rest(payload1, tag1, frame_bytes(payload2, tag2));
    lemma_frame_round_trip(payload2, tag2);
}

/// A finished state with `more` appended to the input that followed the frame.
pub open spec fn extend_rest(m: DecoderModel, more: Seq<u8>) -> DecoderModel {
    match m {
        DecoderModel::Done { length, tag, data, rest } => DecoderModel::Done {
            length,
            tag,
            data,
            rest: rest + more,
        },
        _ => m,
    }
}

/// Feeding keeps the state reachable, and never stops at a payload that is
/// already whole.
pub proof fn lemma_feed_wf(m: DecoderModel, s: Seq<u8>)
    requires
        model_wf(m),
    ensures
        model_wf(feed(m, s)),
        feed(m, s) is Payload ==> feed(m, s)->Payload_data.len() < feed(m, s)->Payload_length,
    decreases s.len(),
{
    if (m is Length || m is TypeTag) && s.len() > 0 {
        lemma_feed_wf(step_header(m, s[0]), s.subrange(1, s.len() as int));
    }
}

/// Feeding `a` then `b` is feeding `a + b`, unless the frame ends within `a`:
/// then the finished state keeps what followed in `a`, and `b` is not read.
pub proof fn lemma_feed_split(m: DecoderModel, a: Seq<u8>, b: Seq<u8>)
    requires
        model_wf(m),
        !(m is Done),
    ensures
        feed(m, a) is Done ==> feed(m, a + b) == extend_rest(feed(m, a), b),
        !(feed(m, a) is Done) ==> feed(m, a + b) == feed(feed(m, a), b),
    decreases a.len(),
{
    let ab = a + b;
    match m {
        DecoderModel::Payload { length, tag, data } => {
            let need = length - data.len();
            if a.len() >= need {
                assert(ab.subrange(0, need) =~= a.subrange(0, need));
                assert(ab.subrange(need, ab.len() as int) =~= a.subrange(need, a.len() as int) + b);
            } else {
                let filled = data + a;
                assert(data + a.subrange(0, a.len() as int) =~= filled);
                let k = if b.len() < need - a.len() {
                    b.len() as int
                } else {
                    need - a.len()
                };
                assert(ab.subrange(0, a.len() + k) =~= a + b.subrange(0, k));
                assert(data + ab.subrange(0, a.len() + k) =~= filled + b.subrange(0, k));
                assert(ab.subrange(a.len() + k, ab.len() as int) =~= b.subrange(k, b.len() as int));
            }
        },
        _ => {
            if a.len() == 0 {
                assert(ab =~= b);
            } else {
                assert(ab[0] == a[0]);
                assert(ab.subrange(1, ab.len() as int) =~= a.subrange(1, a.len() as int) + b);
                let next = step_header(m, a[0]);
                lemma_feed_split(next, a.subrange(1, a.len() as int), b);
            }
        },
    }
}

proof fn lemma_feed_chunks_done(m: DecoderModel, chunks: Seq<Seq<u8>>)
    requires
        m is Done,
    ensures
        feed_chunks(m, chunks) == m,
    decreases chunks.len(),
{
    if chunks.len() > 0 {
        lemma_feed_chunks_done(m, chunks.drop_first());
    }
}

/// Feeding chunks one by one ends where feeding their concatenation does,
/// whenever that does not end in a finished frame followed by more bytes.
pub proof fn lemma_feed_chunks(m: DecoderModel, chunks: Seq<Seq<u8>>)
    requires
        model_wf(m),
        m is Payload ==> m->Payload_data.len() < m->Payload_length,
        feed(m, chunks.flatten()) is Done ==> feed(m, chunks.flatten())->Done_rest.len() == 0,
    ensures
        feed_chunks(m, chunks) == feed(m, chunks.flatten()),
    decreases chunks.len(),
{
    if m is Done {
        lemma_feed_chunks_done(m, chunks);
    } else if chunks.len() == 0 {
        assert(feed(m, Seq::empty()) == m) by {
            if m is Payload {
                assert(m->Payload_data + Seq::<u8>::empty().subrange(0, 0) =~= m->Payload_data);
            }
        }
    } else {
        let first = chunks[0];
        let others = chunks.drop_first();
        assert(chunks.flatten() == first + others.flatten());
        lemma_feed_split(m, first, others.flatten());
        lemma_feed_wf(m, first);
        let next = feed(m, first);
        if next is Done {
            lemma_feed_chunks_done(next, others);
            assert(others.flatten() =~= Seq::empty());
            assert(next->Done_rest + others.flatten() =~= next->Done_rest);
        } else {
            lemma_feed_chunks(next, others);
        }
    }
}

/// Feeding a frame's bytes split into chunks of any sizes, including one byte
/// at a time, gives the same finished frame as feeding them at once.
pub proof fn lemma_chunking_invariance(payload: Seq<u8>, tag: u16, chunks: Seq<Seq<u8>>)
    requires
        payload.len() <= usize::MAX,
        chunks.flatten() == frame_bytes(payload, tag),
    ensures
        feed_chunks(initial_model(), chunks) == feed(initial_model(), frame_bytes(payload, tag)),
        feed_chunks(initial_model(), chunks) == decoded_frame(payload, tag, Seq::empty()),
{
    lemma_frame_round_trip(payload, tag);
    lemma_feed_chunks(initial_model(), chunks);
}

} // verus!
