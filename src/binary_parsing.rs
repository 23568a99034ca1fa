use vstd::prelude::*;

use crate::binary_generation::group_weight;
use crate::constants::{CONTINUATION_BIT, NUMBER_OF_TYPE_TAG_BYTES, VARINT_GROUP_BASE};
use crate::{NumberBytesSize, TypeTagSize};

verus! {

/// One decoded frame, or the part of it collected so far.
#[derive(Debug, PartialEq, Eq)]
pub struct ParsedBinaryStream {
    pub number_of_bytes_payload: NumberBytesSize,
    pub type_tag: TypeTagSize,
    pub payload_as_bytes: Vec<u8>,
}

impl ParsedBinaryStream {
    pub fn number_of_bytes_payload(&self) -> (r: usize)
        ensures
            r == self.number_of_bytes_payload,
    {
        self.number_of_bytes_payload
    }

    pub fn type_tag(&self) -> (r: u16)
        ensures
            r == self.type_tag,
    {
        self.type_tag
    }

    pub fn payload_as_bytes(&self) -> (r: &[u8])
        ensures
            r@ == self.payload_as_bytes@,
    {
        self.payload_as_bytes.as_slice()
    }
}

/// What a decoder state stands for: the progress made on the current frame.
pub enum DecoderModel {
    /// Reading the varint length: groups read so far, their value.
    Length { shift: usize, value: usize },
    /// Reading the tag: the length, tag bytes read so far, their value.
    TypeTag { length: usize, read: u16, tag: u16 },
    /// Collecting the payload.
    Payload { length: usize, tag: u16, data: Seq<u8> },
    /// A whole frame, and the input that followed it.
    Done { length: usize, tag: u16, data: Seq<u8>, rest: Seq<u8> },
}

/// The state in which decoding of a frame begins.
pub open spec fn initial_model() -> DecoderModel {
    DecoderModel::Length { shift: 0, value: 0 }
}

/// `value` plus the varint group `group` at position `shift`, saturating at
/// `usize::MAX`: a declared length beyond the machine's width never completes.
pub open spec fn add_group(value: usize, group: nat, shift: usize) -> usize {
    let sum = value + group * group_weight(shift as nat);
    if sum > usize::MAX {
        usize::MAX
    } else {
        sum as usize
    }
}

/// The finished state for a frame with this payload and tag, followed by `rest`.
pub open spec fn decoded_frame(payload: Seq<u8>, tag: u16, rest: Seq<u8>) -> DecoderModel {
    DecoderModel::Done { length: payload.len() as usize, tag, data: payload, rest }
}

/// The state once a length of `length` has been read.
pub open spec fn length_read(length: usize) -> DecoderModel {
    DecoderModel::TypeTag { length, read: 0, tag: 0 }
}

/// States that the decoder can reach.
pub open spec fn model_wf(m: DecoderModel) -> bool {
    match m {
        DecoderModel::Length { .. } => true,
        DecoderModel::TypeTag { read, tag, .. } => (read == 0 && tag == 0) || (read == 1 && tag
            < 256),
        DecoderModel::Payload { length, data, .. } => data.len() <= length,
        DecoderModel::Done { length, data, .. } => data.len() == length,
    }
}

pub open spec fn is_header(m: DecoderModel) -> bool {
    m is Length || m is TypeTag
}

/// The state after one byte of the length or of the tag.
pub open spec fn step_header(m: DecoderModel, b: u8) -> DecoderModel {
    match m {
        DecoderModel::Length { shift, value } => {
            let v = add_group(value, (b % 128) as nat, shift);
            if b < 128 {
                DecoderModel::TypeTag { length: v, read: 0, tag: 0 }
            } else {
                DecoderModel::Length {
                    shift: if shift < usize::MAX {
                        (shift + 1) as usize
                    } else {
                        shift
                    },
                    value: v,
                }
            }
        },
        DecoderModel::TypeTag { length, read, tag } => {
            if read == 0 {
                DecoderModel::TypeTag { length, read: 1, tag: b as u16 }
            } else {
                DecoderModel::Payload { length, tag: (tag + 256 * b) as u16, data: Seq::empty() }
            }
        },
        _ => m,
    }
}

/// The state after the bytes `s` are fed to the state `m`. The header is read
/// byte by byte; the payload takes as many bytes as it still lacks; a finished
/// frame keeps what was left of the input that finished it and ignores more.
pub open spec fn feed(m: DecoderModel, s: Seq<u8>) -> DecoderModel
    decreases s.len(),
{
    match m {
        DecoderModel::Done { .. } => m,
        DecoderModel::Payload { length, tag, data } => {
            let k = if s.len() < length - data.len() {
                s.len() as int
            } else {
                length - data.len()
            };
            let filled = data + s.subrange(0, k);
            if filled.len() == length {
                DecoderModel::Done { length, tag, data: filled, rest: s.subrange(k, s.len() as int) }
            } else {
                DecoderModel::Payload { length, tag, data: filled }
            }
        },
        _ => if s.len() == 0 {
            m
        } else {
            feed(step_header(m, s[0]), s.subrange(1, s.len() as int))
        },
    }
}

/// Resumable decoder of one frame.
#[derive(Debug, PartialEq, Eq)]
pub enum ByteStreamReadingState<'s> {
    Length { shift_counter: usize, current_number_of_bytes: NumberBytesSize },
    TypeTag {
        number_of_bytes_payload: NumberBytesSize,
        number_of_read_tap_type_bytes: u16,
        wip_type_tag: TypeTagSize,
    },
    PayLoad(ParsedBinaryStream),
    Done { parsed: ParsedBinaryStream, rest: &'s [u8] },
}

/// `value` plus `group * 128^shift`, saturating at `usize::MAX`.
fn accumulate_group(value: usize, group: usize, shift: usize) -> (r: usize)
    requires
        group < 128,
    ensures
        r == add_group(value, group as nat, shift),
{
    if group == 0 {
        return value;
    }
    let mut weighted: usize = group;
    let mut i: usize = 0;
    assert(group_weight(0) == 1);
    while i < shift
        invariant
            0 < group < 128,
            i <= shift,
            weighted == group * group_weight(i as nat),
        decreases shift - i,
    {
        if weighted > usize::MAX / VARINT_GROUP_BASE {
            proof {
                crate::binary_generation::lemma_group_weight_grows(i as nat, shift as nat);
                let wi = group_weight(i as nat);
                let ws = group_weight(shift as nat);
                assert(group * ws >= 128 * (group * wi)) by (nonlinear_arith)
                    requires
                        ws >= 128 * wi,
                        group > 0,
                ;
            }
            return usize::MAX;
        }
        weighted = weighted * VARINT_GROUP_BASE;
        i += 1;
        assert(weighted == group * group_weight(i as nat)) by (nonlinear_arith)
            requires
                weighted == 128 * (group * group_weight((i - 1) as nat)),
                group_weight(i as nat) == 128 * group_weight((i - 1) as nat),
        ;
    }
    if value > usize::MAX - weighted {
        usize::MAX
    } else {
        value + weighted
    }
}

impl<'s> ByteStreamReadingState<'s> {
    pub open spec fn view(&self) -> DecoderModel {
        match *self {
            ByteStreamReadingState::Length { shift_counter, current_number_of_bytes } => {
                DecoderModel::Length { shift: shift_counter, value: current_number_of_bytes }
            },
            ByteStreamReadingState::TypeTag {
                number_of_bytes_payload,
                number_of_read_tap_type_bytes,
                wip_type_tag,
            } => DecoderModel::TypeTag {
                length: number_of_bytes_payload,
                read: number_of_read_tap_type_bytes,
                tag: wip_type_tag,
            },
            ByteStreamReadingState::PayLoad(p) => DecoderModel::Payload {
                length: p.number_of_bytes_payload,
                tag: p.type_tag,
                data: p.payload_as_bytes@,
            },
            ByteStreamReadingState::Done { parsed, rest } => DecoderModel::Done {
                length: parsed.number_of_bytes_payload,
                tag: parsed.type_tag,
                data: parsed.payload_as_bytes@,
                rest: rest@,
            },
        }
    }

    pub open spec fn wf(&self) -> bool {
        model_wf(self@)
    }

    /// Starts decoding a frame on the first bytes received.
    pub fn start(stream: &'s [u8]) -> (r: Self)
        ensures
            r.wf(),
            r@ == feed(initial_model(), stream@),
    {
        let not_started = ByteStreamReadingState::Length {
            shift_counter: 0,
            current_number_of_bytes: 0,
        };
        not_started.advance(stream)
    }

    fn is_header(&self) -> (r: bool)
        ensures
            r == is_header(self@),
    {
        match self {
            ByteStreamReadingState::Length { .. } => true,
            ByteStreamReadingState::TypeTag { .. } => true,
            _ => false,
        }
    }

    fn step_header(self, byte: u8) -> (r: Self)
        requires
            is_header(self@),
            model_wf(self@),
        ensures
            r@ == step_header(self@, byte),
    {
        match self {
            ByteStreamReadingState::Length { shift_counter, current_number_of_bytes } => {
                let value = accumulate_group(
                    current_number_of_bytes,
                    (byte % CONTINUATION_BIT) as usize,
                    shift_counter,
                );
                if byte < CONTINUATION_BIT {
                    ByteStreamReadingState::TypeTag {
                        number_of_bytes_payload: value,
                        number_of_read_tap_type_bytes: 0,
                        wip_type_tag: 0,
                    }
                } else {
                    let next_shift = if shift_counter < usize::MAX {
                        shift_counter + 1
                    } else {
                        shift_counter
                    };
                    ByteStreamReadingState::Length {
                        shift_counter: next_shift,
                        current_number_of_bytes: value,
                    }
                }
            },
            ByteStreamReadingState::TypeTag {
                number_of_bytes_payload,
                number_of_read_tap_type_bytes,
                wip_type_tag,
            } => {
                if number_of_read_tap_type_bytes + 1 < NUMBER_OF_TYPE_TAG_BYTES {
                    ByteStreamReadingState::TypeTag {
                        number_of_bytes_payload,
                        number_of_read_tap_type_bytes: number_of_read_tap_type_bytes + 1,
                        wip_type_tag: byte as u16,
                    }
                } else {
                    ByteStreamReadingState::PayLoad(
                        ParsedBinaryStream {
                            number_of_bytes_payload,
                            type_tag: wip_type_tag + 256 * (byte as u16),
                            payload_as_bytes: Vec::new(),
                        },
                    )
                }
            },
            other => other,
        }
    }

    /// Collects as much of the payload as `stream` holds.
    fn fill_payload(parsed: ParsedBinaryStream, stream: &'s [u8]) -> (r: Self)
        requires
            parsed.payload_as_bytes@.len() <= parsed.number_of_bytes_payload,
        ensures
            r@ == feed(ByteStreamReadingState::PayLoad(parsed)@, stream@),
    {
        let ghost start = ByteStreamReadingState::PayLoad(parsed)@;
        let ParsedBinaryStream { number_of_bytes_payload, type_tag, payload_as_bytes } = parsed;
        let mut payload_as_bytes = payload_as_bytes;
        let ghost collected = payload_as_bytes@;
        let missing = number_of_bytes_payload - payload_as_bytes.len();
        let take = if stream.len() < missing {
            stream.len()
        } else {
            missing
        };
        let mut j: usize = 0;
        while j < take
            invariant
                take <= stream@.len(),
                j <= take,
                payload_as_bytes@ == collected + stream@.subrange(0, j as int),
            decreases take - j,
        {
            payload_as_bytes.push(stream[j]);
            j += 1;
            assert(payload_as_bytes@ =~= collected + stream@.subrange(0, j as int));
        }
        let (_, rest) = stream.split_at(take);
        if payload_as_bytes.len() == number_of_bytes_payload {
            ByteStreamReadingState::Done {
                parsed: ParsedBinaryStream { number_of_bytes_payload, type_tag, payload_as_bytes },
                rest,
            }
        } else {
            ByteStreamReadingState::PayLoad(
                ParsedBinaryStream { number_of_bytes_payload, type_tag, payload_as_bytes },
            )
        }
    }

    /// The same unfinished state, free of the input it was fed.
    pub fn detach<'b>(self) -> (r: ByteStreamReadingState<'b>)
        requires
            !(self@ is Done),
        ensures
            r@ == self@,
    {
        match self {
            ByteStreamReadingState::Length { shift_counter, current_number_of_bytes } => {
                ByteStreamReadingState::Length { shift_counter, current_number_of_bytes }
            },
            ByteStreamReadingState::TypeTag {
                number_of_bytes_payload,
                number_of_read_tap_type_bytes,
                wip_type_tag,
            } => ByteStreamReadingState::TypeTag {
                number_of_bytes_payload,
                number_of_read_tap_type_bytes,
                wip_type_tag,
            },
            ByteStreamReadingState::PayLoad(parsed) => ByteStreamReadingState::PayLoad(parsed),
            // excluded by the precondition
            ByteStreamReadingState::Done { parsed, .. } => ByteStreamReadingState::PayLoad(parsed),
        }
    }

    /// Feeds the next bytes received to the decoder.
    pub fn advance(self, stream: &'s [u8]) -> (r: Self)
        requires
            self.wf(),
        ensures
            r.wf(),
            r@ == feed(self@, stream@),
    {
        let mut state = self;
        let mut i: usize = 0;
        assert(stream@.subrange(0, stream@.len() as int) =~= stream@);
        while i < stream.len() && state.is_header()
            invariant
                i <= stream@.len(),
                model_wf(state@),
                feed(state@, stream@.subrange(i as int, stream@.len() as int)) == feed(
                    self@,
                    stream@,
                ),
            decreases stream.len() - i,
        {
            let ghost unread = stream@.subrange(i as int, stream@.len() as int);
            assert(unread.subrange(1, unread.len() as int) =~= stream@.subrange(
                i + 1,
                stream@.len() as int,
            ));
            state = state.step_header(stream[i]);
            i += 1;
        }
        let (_, unread) = stream.split_at(i);
        match state {
            ByteStreamReadingState::PayLoad(parsed) => Self::fill_payload(parsed, unread),
            other => other,
        }
    }
}

} // verus!
