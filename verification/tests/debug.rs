use yundrone_ble::debug_text::{
    chunk_ack_line, event_ack_line, format_peripheral_summary, log_notification, other_response_line, probe_rx_detail,
    probe_tx_detail, qos_fallback_line, qos_write_line, transport_ack_line, DebugPeripheralSummary, DebugStep,
};
use yundrone_ble::receipt::ChunkReceipt;
use yundrone_ble::response::{TransportAckReceipt, TransportAckType};
use yundrone_ble::session::transport_ack_frame_kind;
use yundrone_ble::transport::FrameKind;
use yundrone_ble::protocol::{CommandResponse, ProtocolError, CMD_LINK_HEARTBEAT};

#[test]
fn debug_step_line_is_stable_and_readable() {
    let line = DebugStep::ok("discover", "12 ms, 1 services".to_string()).line();

    assert!(line.contains("[OK]"));
    assert!(line.contains("discover"));
    assert!(line.contains("12 ms, 1 services"));
}

#[test]
fn peripheral_summary_includes_advertised_services() {
    let text = format_peripheral_summary(&DebugPeripheralSummary {
        local_name: "yundrone-065333".to_string(),
        rssi: Some(-22),
        address: "AA:BB:CC:DD:EE:FF".to_string(),
        advertised_services: vec![CMD_LINK_HEARTBEAT.to_string()],
    });

    assert!(text.contains("yundrone-065333"));
    assert!(text.contains("-22 dBm"));
    assert!(text.contains("AA:BB:CC:DD:EE:FF"));
}

#[test]
fn debug_step_name_is_padded_to_eighteen_characters() {
    let line = DebugStep::ok("tx", "ok".to_string()).line();
    assert_eq!(line, format!("[OK] {:<18} {}", "tx", "ok"));
    let long = DebugStep::ok("a-very-long-step-name", "x".to_string()).line();
    assert_eq!(long, "[OK] a-very-long-step-name x");
}

#[test]
fn peripheral_summary_without_signal_or_services() {
    let text = format_peripheral_summary(&DebugPeripheralSummary {
        local_name: "n".to_string(),
        rssi: None,
        address: "A".to_string(),
        advertised_services: vec![],
    });
    assert_eq!(text, "name=n rssi=unknown address=A advertised_services=[none]");
}

#[test]
fn parse_errors_are_logged_with_their_message() {
    let lines = log_notification(b"{", &Err(ProtocolError::BadJson("eof".to_string())));
    assert_eq!(lines.len(), 2);
    assert_eq!(lines[0], "[RX:raw] bytes=1 {");
    assert_eq!(lines[1], "[RX:parse-error] Bad JSON: eof");
}

#[test]
fn frames_are_logged_with_debug_command_names() {
    let response = CommandResponse::ok("req-1".to_string(), "done".to_string(), None);
    let lines = log_notification(b"x", &Ok(response));
    assert_eq!(lines[1], "[RX:frame] id=req-1 cmd=None code=OK phase=Result final=true text=done");
}

#[test]
fn probe_step_details_name_the_command() {
    assert_eq!(probe_tx_detail("link.heartbeat", "req-1", 87), "link.heartbeat id=req-1 bytes=87");
    let response = CommandResponse::ok("req-1".to_string(), "alive".to_string(), None);
    assert_eq!(
        probe_rx_detail("link.heartbeat", &response),
        "link.heartbeat id=req-1 ok=true code=OK phase=Result final=true text=alive"
    );
    let other = CommandResponse::error("req-9".to_string(), "E_BUSY".to_string(), "busy".to_string());
    assert_eq!(other_response_line(&other), "[RX:other] id=req-9 cmd=None code=E_BUSY final=true");
}

#[test]
fn qos_lines_trace_writes_and_acks() {
    assert_eq!(qos_write_line("request", 20), "[QOS:tx] request bytes=20 write=with-response");
    assert_eq!(
        qos_fallback_line("request", "not permitted"),
        "[QOS:tx] request fallback=without-response reason=not permitted"
    );
    let ack = TransportAckReceipt { stream_id: 7, ack_type: TransportAckType::Range, index: 3 };
    assert_eq!(transport_ack_line(&ack), "[QOS:transport-ack] kind=Range stream=7 index=3");
    let receipt = ChunkReceipt { response_id: "req-2".to_string(), response_seq: 4, chunk_index: 2, chunk_total: 5 };
    assert_eq!(chunk_ack_line(&receipt), "[QOS:ack] id=req-2 seq=4 chunk=2/5");
    assert_eq!(event_ack_line("req-2", 4), "[QOS:event-ack] id=req-2 seq=4");
}

#[test]
fn transport_acks_use_their_frame_kinds() {
    assert_eq!(transport_ack_frame_kind(TransportAckType::Range), FrameKind::AckRange);
    assert_eq!(transport_ack_frame_kind(TransportAckType::Event), FrameKind::AckEvent);
}
