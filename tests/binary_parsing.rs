use daima_common::binary_generation::{encode_frame, size_to_bytes_sequence};
use daima_common::binary_parsing::{ByteStreamReadingState, ParsedBinaryStream};

#[test]
fn parse_empty_at_start() {
    let input: &[u8] = &[];
    let actual = ByteStreamReadingState::start(input);
    let expected = ByteStreamReadingState::Length {
        shift_counter: 0,
        current_number_of_bytes: 0,
    };
    assert_eq!(expected, actual);
}

fn assert_start_case(input: &[u8], expected: ByteStreamReadingState) {
    let actual = ByteStreamReadingState::start(input);
    assert_eq!(expected, actual, "Input {:?}\n", input);
}

#[test]
fn parse_number_of_length_of_byte_stream() {
    // 000_0010 | 000_0010
    // 00000_001 0000_0010
    assert_start_case(
        &[0b1000_0010, 0b1000_0010],
        ByteStreamReadingState::Length {
            shift_counter: 2,
            current_number_of_bytes: 258,
        },
    );
    assert_start_case(
        &[0b0001_0101],
        ByteStreamReadingState::TypeTag {
            number_of_bytes_payload: 21,
            wip_type_tag: 0,
            number_of_read_tap_type_bytes: 0,
        },
    );
    assert_start_case(
        &[0b1001_0101],
        ByteStreamReadingState::Length {
            shift_counter: 1,
            current_number_of_bytes: 21,
        },
    );
    assert_start_case(
        &[0b0001_0101, 0b0101],
        ByteStreamReadingState::TypeTag {
            number_of_bytes_payload: 21,
            wip_type_tag: 5,
            number_of_read_tap_type_bytes: 1,
        },
    );
    assert_start_case(
        &[0b0001_0101, 0b0, 0b1],
        ByteStreamReadingState::PayLoad(ParsedBinaryStream {
            number_of_bytes_payload: 21,
            type_tag: 256,
            payload_as_bytes: Vec::new(),
        }),
    );
    assert_start_case(
        &[
            // number of bytes
            0b0000_0011,
            // end of number of payload bytes
            // tag
            0b011,
            0b0,
            // payload
            0b1,
            0b11,
            0b111,
            // rest
            0b1111_1111,
        ],
        ByteStreamReadingState::Done {
            parsed: ParsedBinaryStream {
                number_of_bytes_payload: 3,
                type_tag: 3,
                payload_as_bytes: vec![0b1, 0b11, 0b111],
            },
            rest: &[0b1111_1111],
        },
    );
}

fn done_with(payload: &[u8], tag: u16) -> ParsedBinaryStream {
    ParsedBinaryStream {
        number_of_bytes_payload: payload.len(),
        type_tag: tag,
        payload_as_bytes: payload.to_vec(),
    }
}

#[test]
fn varint_round_trips_through_the_decoder() {
    for n in [0usize, 1, 127, 128, 300, 16_384, u32::MAX as usize, usize::MAX] {
        let encoded = size_to_bytes_sequence(n);
        let state = ByteStreamReadingState::start(&encoded);
        assert_eq!(
            state,
            ByteStreamReadingState::TypeTag {
                number_of_bytes_payload: n,
                number_of_read_tap_type_bytes: 0,
                wip_type_tag: 0,
            },
            "n = {}",
            n
        );
    }
}

#[test]
fn frame_round_trips() {
    let cases: Vec<(Vec<u8>, u16)> = vec![
        (vec![], 0),
        (vec![], u16::MAX),
        (vec![1, 2, 3], 256),
        (vec![0xab; 300], 0x1234),
    ];
    for (payload, tag) in cases {
        let frame = encode_frame(&payload, tag);
        let state = ByteStreamReadingState::start(&frame);
        assert_eq!(
            state,
            ByteStreamReadingState::Done {
                parsed: done_with(&payload, tag),
                rest: &[],
            }
        );
    }
}

#[test]
fn one_byte_at_a_time_gives_the_same_frame() {
    let payload: Vec<u8> = (0..=255u8).collect();
    let frame = encode_frame(&payload, 0x0102);
    let at_once = ByteStreamReadingState::start(&frame);
    let mut state = ByteStreamReadingState::start(&[]);
    for i in 0..frame.len() {
        state = state.advance(&frame[i..i + 1]);
    }
    assert_eq!(state, at_once);
    let mut uneven = ByteStreamReadingState::start(&frame[..1]);
    uneven = uneven.advance(&frame[1..3]);
    uneven = uneven.advance(&[]);
    uneven = uneven.advance(&frame[3..100]);
    uneven = uneven.advance(&frame[100..]);
    assert_eq!(uneven, at_once);
}

#[test]
fn pipelined_frames_decode_in_order() {
    let first = encode_frame(&[1, 2], 7);
    let second = encode_frame(&[3], 9);
    let mut both = first.clone();
    both.extend_from_slice(&second);
    let state = ByteStreamReadingState::start(&both);
    match state {
        ByteStreamReadingState::Done { parsed, rest } => {
            assert_eq!(parsed, done_with(&[1, 2], 7));
            assert_eq!(rest, &second[..]);
            let next = ByteStreamReadingState::start(rest);
            assert_eq!(
                next,
                ByteStreamReadingState::Done {
                    parsed: done_with(&[3], 9),
                    rest: &[],
                }
            );
        }
        other => panic!("expected a whole frame, got {:?}", other),
    }
}

#[test]
fn finished_state_ignores_more_input() {
    let frame = encode_frame(&[4], 2);
    let done = ByteStreamReadingState::start(&frame);
    let again = ByteStreamReadingState::start(&frame).advance(&[1, 2, 3]);
    assert_eq!(done, again);
}

#[test]
fn oversized_length_saturates_and_never_completes() {
    let mut input = vec![0xffu8; 12];
    input.push(0x7f);
    let state = ByteStreamReadingState::start(&input);
    assert_eq!(
        state,
        ByteStreamReadingState::TypeTag {
            number_of_bytes_payload: usize::MAX,
            number_of_read_tap_type_bytes: 0,
            wip_type_tag: 0,
        }
    );
    let state = state.advance(&[0, 0, 1, 2, 3]);
    assert!(matches!(state, ByteStreamReadingState::PayLoad(_)));
}

#[test]
fn parsed_frame_getters() {
    let frame = encode_frame(&[6, 5], 0x0a0b);
    match ByteStreamReadingState::start(&frame) {
        ByteStreamReadingState::Done { parsed, .. } => {
            assert_eq!(parsed.number_of_bytes_payload(), 2);
            assert_eq!(parsed.type_tag(), 0x0a0b);
            assert_eq!(parsed.payload_as_bytes(), &[6, 5]);
        }
        other => panic!("expected a whole frame, got {:?}", other),
    }
}
