use yundrone_ble::transport::{
    decode_frame, encode_ack_frame, encode_payload_frames, FrameKind, PayloadReassembler,
    TransportError, FRAME_HEADER_LEN, MAX_FRAME_PAYLOAD_LEN,
};

#[test]
fn request_payload_fragments_round_trip_under_twenty_bytes() {
    let payload = br#"{"id":"req-1","cmd":"system.status","args":{},"v":"YundroneBT-V2.1.0"}"#;
    let frames = encode_payload_frames(FrameKind::RequestChunk, 7, payload, 20).unwrap();

    assert!(frames.len() > 1);
    assert!(frames.iter().all(|frame| frame.len() <= 20));

    let mut reassembler = PayloadReassembler::new();
    let mut completed = None;
    for raw in frames {
        completed = reassembler.accept_frame(&raw).unwrap().payload;
    }

    assert_eq!(completed.as_deref(), Some(payload.as_slice()));
}

#[test]
fn v2_twenty_byte_frames_carry_sixteen_payload_bytes() {
    assert_eq!(FRAME_HEADER_LEN, 4);
    assert_eq!(MAX_FRAME_PAYLOAD_LEN, 16);

    let payload = [b'a'; 101];
    let frames = encode_payload_frames(FrameKind::RequestChunk, 7, &payload, 20).unwrap();

    assert_eq!(frames.len(), 7);
    assert!(frames.iter().all(|frame| frame.len() <= 20));
    assert!(frames.iter().take(6).all(|frame| frame.len() == 20));
    assert_eq!(frames.last().unwrap().len(), 9);
    assert_eq!(frames[0][0], 0x59);
    assert_eq!(frames[0][1] >> 4, 2);
    assert_eq!(frames[0][2], 7);
    assert_eq!(frames[0][3], 1);

    let first = decode_frame(&frames[0]).unwrap();
    let last = decode_frame(frames.last().unwrap()).unwrap();
    assert_eq!(first.payload.len(), 16);
    assert!(!first.final_frame);
    assert_eq!(last.index, 7);
    assert!(last.final_frame);
}

#[test]
fn v2_response_payload_uses_thirty_seven_frames_for_591_bytes() {
    let payload = vec![b'x'; 591];
    let frames = encode_payload_frames(FrameKind::ResponseChunk, 9, &payload, 20).unwrap();

    assert_eq!(frames.len(), 37);
    assert_eq!(decode_frame(&frames[0]).unwrap().payload.len(), 16);
    assert!(decode_frame(frames.last().unwrap()).unwrap().final_frame);
}

#[test]
fn v2_reassembler_accepts_final_first_out_of_order_and_duplicate_fragments() {
    let payload = b"abcdefghijklmnopqrstuvwxyz0123456789";
    let frames = encode_payload_frames(FrameKind::RequestChunk, 9, payload, 20).unwrap();
    let mut reassembler = PayloadReassembler::new();

    assert!(reassembler.accept_frame(frames.last().unwrap()).unwrap().payload.is_none());
    assert!(reassembler.accept_frame(&frames[1]).unwrap().payload.is_none());
    assert!(reassembler.accept_frame(&frames[1]).unwrap().payload.is_none());
    let completed = reassembler.accept_frame(&frames[0]).unwrap().payload;

    assert_eq!(completed.as_deref(), Some(payload.as_slice()));
}

#[test]
fn v2_reassembler_rejects_conflicting_final_index() {
    let payload = b"abcdefghijklmnopqrstuvwxyz0123456789";
    let frames = encode_payload_frames(FrameKind::RequestChunk, 9, payload, 20).unwrap();
    let mut conflicting_final = frames[1].clone();
    conflicting_final[1] = (2 << 4) | FrameKind::RequestFinal.wire();
    let mut reassembler = PayloadReassembler::new();

    reassembler.accept_frame(frames.last().unwrap()).unwrap();
    let err = reassembler.accept_frame(&conflicting_final).unwrap_err();

    assert_eq!(err, TransportError::FinalIndexChanged);
}

#[test]
fn v2_rejects_zero_index_and_oversized_payload() {
    let zero_index = [0x59, (2 << 4) | FrameKind::RequestFinal.wire(), 1, 0, b'x'];
    let oversized = [vec![0x59, (2 << 4) | FrameKind::RequestFinal.wire(), 1, 1], vec![b'x'; 17]].concat();

    assert_eq!(decode_frame(&zero_index).unwrap_err(), TransportError::BadPayloadIndex);
    assert_eq!(
        decode_frame(&oversized).unwrap_err(),
        TransportError::FrameTooLarge { actual: 21, budget: 20 }
    );
}

#[test]
fn request_reassembler_accepts_out_of_order_and_duplicate_fragments() {
    let payload = b"abcdefghijklmnopqrstuvwxyz0123456789";
    let frames = encode_payload_frames(FrameKind::RequestChunk, 9, payload, 20).unwrap();
    let mut reassembler = PayloadReassembler::new();

    assert!(reassembler.accept_frame(&frames[1]).unwrap().payload.is_none());
    assert!(reassembler.accept_frame(&frames[1]).unwrap().payload.is_none());
    assert!(reassembler.accept_frame(&frames[0]).unwrap().payload.is_none());
    let completed = reassembler.accept_frame(&frames[2]).unwrap().payload;

    assert_eq!(completed.as_deref(), Some(payload.as_slice()));
}

#[test]
fn v1_frames_are_rejected_after_v2_cutover() {
    let old_v1_frame = [0x59, 0x11, 0x00, 0x0b, 0x01, 0x01, 0x05, b'h', b'e', b'l', b'l', b'o'];

    let err = decode_frame(&old_v1_frame).unwrap_err();

    assert_eq!(err, TransportError::BadVersion(1));
}

#[test]
fn compact_ack_frames_decode_without_json_payload() {
    let raw = encode_ack_frame(FrameKind::AckRange, 42, 3, 20).unwrap();
    let frame = decode_frame(&raw).unwrap();

    assert_eq!(raw.len(), 4);
    assert_eq!(frame.kind, FrameKind::AckRange);
    assert_eq!(frame.stream_id, 42);
    assert_eq!(frame.index, 3);
    assert!(frame.payload.is_empty());
}

#[test]
fn frames_of_a_payload_reassemble_in_reverse_order() {
    let payload: Vec<u8> = (0u8..=99).collect();
    let frames = encode_payload_frames(FrameKind::ResponseChunk, 3, &payload, 20).unwrap();
    let mut reassembler = PayloadReassembler::new();
    let mut completed = None;
    for raw in frames.iter().rev() {
        let event = reassembler.accept_frame(raw).unwrap();
        if event.payload.is_some() {
            assert!(completed.is_none());
            completed = event.payload;
        }
    }
    assert_eq!(completed, Some(payload));
}

#[test]
fn decode_inverts_encode_for_one_frame() {
    let frames = encode_payload_frames(FrameKind::RequestChunk, 5, b"hello", 20).unwrap();
    assert_eq!(frames.len(), 1);
    let frame = decode_frame(&frames[0]).unwrap();
    assert_eq!(frame.kind, FrameKind::RequestFinal);
    assert_eq!(frame.stream_id, 5);
    assert_eq!(frame.index, 1);
    assert_eq!(frame.payload, b"hello".to_vec());
}

#[test]
fn too_small_budget_is_refused() {
    assert_eq!(
        encode_payload_frames(FrameKind::RequestChunk, 5, b"hello", 4).unwrap_err(),
        TransportError::FrameBudgetTooSmall
    );
}

#[test]
fn too_short_frames_are_refused() {
    assert_eq!(decode_frame(&[0x59, 0x20]).unwrap_err(), TransportError::TooShort);
}
