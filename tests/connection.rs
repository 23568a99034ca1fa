use daima_common::binary_generation::encode_frame;
use daima_common::binary_parsing::ByteStreamReadingState;
use daima_common::connection::drain_frames;

#[test]
fn one_read_with_several_frames_yields_them_in_order() {
    let mut bytes = encode_frame(&[1], 0);
    bytes.extend_from_slice(&encode_frame(&[], 5));
    bytes.extend_from_slice(&encode_frame(&[2, 3], 1));
    let (frames, pending) = drain_frames(ByteStreamReadingState::start(&[]), &bytes);
    let seen: Vec<(u16, Vec<u8>)> = frames
        .iter()
        .map(|f| (f.type_tag(), f.payload_as_bytes().to_vec()))
        .collect();
    assert_eq!(seen, vec![(0, vec![1]), (5, vec![]), (1, vec![2, 3])]);
    assert_eq!(
        pending,
        ByteStreamReadingState::Length {
            shift_counter: 0,
            current_number_of_bytes: 0,
        }
    );
}

#[test]
fn frame_split_across_reads_is_finished_by_the_later_read() {
    let first = encode_frame(&[7, 8, 9], 3);
    let second = encode_frame(&[4], 4);
    let mut stream = first.clone();
    stream.extend_from_slice(&second);
    let (frames, pending) = drain_frames(ByteStreamReadingState::start(&[]), &stream[..4]);
    assert!(frames.is_empty());
    let (frames, pending) = drain_frames(pending, &stream[4..7]);
    assert_eq!(frames.len(), 1);
    assert_eq!(frames[0].payload_as_bytes(), &[7, 8, 9]);
    assert_eq!(frames[0].type_tag(), 3);
    assert_eq!(
        pending,
        ByteStreamReadingState::TypeTag {
            number_of_bytes_payload: 1,
            number_of_read_tap_type_bytes: 0,
            wip_type_tag: 0,
        }
    );
    let (frames, pending) = drain_frames(pending, &stream[7..]);
    assert_eq!(frames.len(), 1);
    assert_eq!(frames[0].type_tag(), 4);
    assert_eq!(frames[0].payload_as_bytes(), &[4]);
    assert!(matches!(pending, ByteStreamReadingState::Length { .. }));
}

#[test]
fn empty_read_changes_nothing() {
    let (frames, pending) = drain_frames(ByteStreamReadingState::start(&[0x81]), &[]);
    assert!(frames.is_empty());
    assert_eq!(
        pending,
        ByteStreamReadingState::Length {
            shift_counter: 1,
            current_number_of_bytes: 1,
        }
    );
}
