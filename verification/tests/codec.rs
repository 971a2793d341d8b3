use mix_link::message::{
    decode_frame, encode_noise, encode_payload, encode_valid_payload, is_noise, FrameError,
    MAX_PAYLOAD_SIZE, MSG_SIZE,
};

#[test]
fn noise_frame_is_all_zero_and_full_size() {
    let noise = encode_noise();
    assert_eq!(noise.len(), MSG_SIZE);
    assert!(noise.iter().all(|&b| b == 0));
    assert!(is_noise(&noise));
}

#[test]
fn real_frame_has_same_length_as_noise() {
    let frame = encode_payload(b"hello").unwrap();
    let noise = encode_noise();
    assert_eq!(frame.len(), MSG_SIZE);
    assert_eq!(frame.len(), noise.len());
}

#[test]
fn real_frame_is_never_noise() {
    let frame = encode_payload(b"hello").unwrap();
    assert!(!is_noise(&frame));
}

#[test]
fn all_zero_payload_does_not_collide_with_sentinel() {
    // The boundary case: a real payload of zero bytes, framed, must not be
    // mistaken for noise — the length bytes keep it apart.
    let zeros = vec![0u8; 17];
    let frame = encode_payload(&zeros).unwrap();
    assert!(!is_noise(&frame));
    assert_eq!(decode_frame(&frame), Some(zeros));
}

#[test]
fn longest_all_zero_payload_still_distinct() {
    let zeros = vec![0u8; MAX_PAYLOAD_SIZE];
    let frame = encode_payload(&zeros).unwrap();
    assert!(!is_noise(&frame));
    assert_eq!(decode_frame(&frame), Some(zeros));
}

#[test]
fn is_noise_rejects_wrong_length() {
    assert!(!is_noise(&[]));
    assert!(!is_noise(&vec![0u8; MSG_SIZE - 1]));
    assert!(!is_noise(&vec![0u8; MSG_SIZE + 1]));
}

#[test]
fn is_noise_rejects_one_nonzero_byte() {
    let mut frame = vec![0u8; MSG_SIZE];
    frame[MSG_SIZE - 1] = 1;
    assert!(!is_noise(&frame));
}

#[test]
fn frame_layout_is_length_payload_padding() {
    let frame = encode_payload(b"hello").unwrap();
    assert_eq!(frame[0], 0);
    assert_eq!(frame[1], 5);
    assert_eq!(&frame[2..7], b"hello");
    assert!(frame[7..].iter().all(|&b| b == 0));
}

#[test]
fn round_trip_hello() {
    let frame = encode_payload(b"hello").unwrap();
    assert_eq!(decode_frame(&frame), Some(b"hello".to_vec()));
}

#[test]
fn round_trip_longest_payload() {
    let payload: Vec<u8> = (0..MAX_PAYLOAD_SIZE).map(|i| (i % 251) as u8).collect();
    let frame = encode_payload(&payload).unwrap();
    assert_eq!(frame.len(), MSG_SIZE);
    assert_eq!(decode_frame(&frame), Some(payload));
}

#[test]
fn empty_payload_is_rejected() {
    assert_eq!(encode_payload(b""), Err(FrameError::EmptyPayload));
}

#[test]
fn oversized_payload_is_rejected() {
    let too_long = vec![7u8; MAX_PAYLOAD_SIZE + 1];
    assert_eq!(encode_payload(&too_long), Err(FrameError::PayloadTooLong));
}

#[test]
fn encode_valid_payload_matches_checked_encoder() {
    let checked = encode_payload(b"abc").unwrap();
    let direct = encode_valid_payload(b"abc");
    assert_eq!(checked, direct);
}

#[test]
fn noise_does_not_decode() {
    assert_eq!(decode_frame(&encode_noise()), None);
}

#[test]
fn wrong_length_does_not_decode() {
    assert_eq!(decode_frame(b"hello"), None);
    assert_eq!(decode_frame(&vec![1u8; MSG_SIZE + 1]), None);
}

#[test]
fn dirty_padding_does_not_decode() {
    let mut frame = encode_payload(b"hello").unwrap();
    frame[MSG_SIZE - 1] = 1;
    assert_eq!(decode_frame(&frame), None);
}

#[test]
fn oversized_announced_length_does_not_decode() {
    let mut frame = vec![0u8; MSG_SIZE];
    frame[0] = 0x07;
    frame[1] = 0xff;
    assert_eq!(decode_frame(&frame), None);
}
