use yundrone_ble::response::{TransportAckReceipt, TransportAckType, TransportResponseDecoder};
use yundrone_ble::transport::{encode_control_frame, encode_payload_frames, FrameKind};

fn response_bytes(text: &str) -> Vec<u8> {
    format!(
        "{{\"id\":\"req-transport\",\"phase\":\"result\",\"seq\":1,\"final\":true,\"ok\":true,\"code\":\"OK\",\"text\":\"{}\",\"v\":\"YundroneBT-V2.1.0\"}}",
        text
    )
    .into_bytes()
}

#[test]
fn transport_response_frames_reassemble_before_json_decode() {
    let payload = response_bytes(&"x".repeat(160));
    let frames = encode_payload_frames(FrameKind::ResponseChunk, 22, &payload, 20).unwrap();
    let mut decoder = TransportResponseDecoder::new();
    let mut completed = None;

    for raw in frames {
        let event = decoder.decode_event(&raw).unwrap();
        if event.payload.is_some() {
            completed = Some(event);
        }
    }

    let completed = completed.expect("transport response should complete");
    assert_eq!(completed.payload, Some(payload));
    assert_eq!(
        completed.transport_ack,
        Some(TransportAckReceipt { stream_id: 22, ack_type: TransportAckType::Event, index: 0 })
    );
    assert!(completed.assembled_from_transport);
}

#[test]
fn transport_response_chunk_generates_compact_ack_receipt() {
    let payload = response_bytes(&"x".repeat(160));
    let frames = encode_payload_frames(FrameKind::ResponseChunk, 23, &payload, 20).unwrap();
    let mut decoder = TransportResponseDecoder::new();

    let event = decoder.decode_event(&frames[0]).unwrap();

    assert!(event.payload.is_none());
    assert_eq!(
        event.transport_ack,
        Some(TransportAckReceipt { stream_id: 23, ack_type: TransportAckType::Range, index: 1 })
    );
}

#[test]
fn transport_response_sends_windowed_range_ack_for_contiguous_prefix() {
    let payload = response_bytes(&"x".repeat(160));
    let frames = encode_payload_frames(FrameKind::ResponseChunk, 25, &payload, 20).unwrap();
    let mut decoder = TransportResponseDecoder::new();

    let first = decoder.decode_event(&frames[0]).unwrap();
    let second = decoder.decode_event(&frames[1]).unwrap();

    assert_eq!(
        first.transport_ack,
        Some(TransportAckReceipt { stream_id: 25, ack_type: TransportAckType::Range, index: 1 })
    );
    assert_eq!(
        second.transport_ack,
        Some(TransportAckReceipt { stream_id: 25, ack_type: TransportAckType::Range, index: 2 })
    );
}

#[test]
fn transport_response_range_ack_does_not_advance_past_gap() {
    let payload = response_bytes(&"x".repeat(160));
    let frames = encode_payload_frames(FrameKind::ResponseChunk, 26, &payload, 20).unwrap();
    let mut decoder = TransportResponseDecoder::new();

    let first = decoder.decode_event(&frames[0]).unwrap();
    let third = decoder.decode_event(&frames[2]).unwrap();

    assert_eq!(
        first.transport_ack,
        Some(TransportAckReceipt { stream_id: 26, ack_type: TransportAckType::Range, index: 1 })
    );
    assert_eq!(third.transport_ack, None);
}

#[test]
fn transport_response_final_sends_event_ack_without_extra_range_ack() {
    let payload = response_bytes("short");
    let frames = encode_payload_frames(FrameKind::ResponseChunk, 27, &payload, 20).unwrap();
    let mut decoder = TransportResponseDecoder::new();
    let mut completed = None;

    for raw in frames {
        let event = decoder.decode_event(&raw).unwrap();
        if event.payload.is_some() {
            completed = Some(event);
        }
    }

    assert_eq!(
        completed.expect("response should complete").transport_ack,
        Some(TransportAckReceipt { stream_id: 27, ack_type: TransportAckType::Event, index: 0 })
    );
}

#[test]
fn late_duplicate_final_does_not_poison_reused_stream() {
    let accepted = b"{\"id\":\"req-reuse\",\"cmd\":\"wifi.scan\",\"phase\":\"accepted\",\"seq\":1,\"final\":false,\"ok\":true,\"code\":\"ACCEPTED\",\"text\":\"accepted\",\"v\":\"YundroneBT-V2.1.0\"}".to_vec();
    let result = b"{\"id\":\"req-reuse\",\"phase\":\"result\",\"seq\":2,\"final\":true,\"ok\":true,\"code\":\"OK\",\"text\":\"wifi scan complete\",\"v\":\"YundroneBT-V2.1.0\"}".to_vec();
    let accepted_frames = encode_payload_frames(FrameKind::ResponseChunk, 28, &accepted, 20).unwrap();
    let result_frames = encode_payload_frames(FrameKind::ResponseChunk, 28, &result, 20).unwrap();
    let mut decoder = TransportResponseDecoder::new();

    for raw in &accepted_frames {
        decoder.decode_event(raw).unwrap();
    }
    let duplicate_final = decoder.decode_event(accepted_frames.last().unwrap()).unwrap();
    assert_eq!(
        duplicate_final.transport_ack,
        Some(TransportAckReceipt { stream_id: 28, ack_type: TransportAckType::Event, index: 0 })
    );
    assert!(duplicate_final.payload.is_none());

    let mut completed = None;
    for raw in &result_frames {
        let event = decoder.decode_event(raw).unwrap();
        if let Some(payload) = event.payload {
            completed = Some(payload);
        }
    }

    assert_eq!(completed, Some(result));
}

#[test]
fn transport_response_frame_marks_progress_before_reassembly() {
    let payload = response_bytes(&"x".repeat(160));
    let frames = encode_payload_frames(FrameKind::ResponseChunk, 24, &payload, 20).unwrap();
    let mut decoder = TransportResponseDecoder::new();

    let event = decoder.decode_event(&frames[0]).unwrap();

    assert!(event.transport_progress);
    assert!(event.payload.is_none());
}

#[test]
fn transport_progress_control_frame_marks_progress_without_ack_or_json_decode() {
    let raw = encode_control_frame(FrameKind::Progress, 0, 2, 20).unwrap();
    let mut decoder = TransportResponseDecoder::new();

    let event = decoder.decode_event(&raw).unwrap();

    assert!(event.transport_progress);
    assert!(event.payload.is_none());
    assert_eq!(event.transport_ack, None);
    assert!(!event.assembled_from_transport);
}

#[test]
fn non_transport_bytes_are_handed_back_for_the_json_decoder() {
    let raw = b"{\"id\":\"req-1\"}".to_vec();
    let mut decoder = TransportResponseDecoder::new();

    let event = decoder.decode_event(&raw).unwrap();

    assert!(event.legacy);
    assert_eq!(event.payload, Some(raw));
    assert_eq!(event.transport_ack, None);
}
