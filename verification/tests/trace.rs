use yundrone_ble::json::{JsonEntry, JsonNumber, JsonValue};
use yundrone_ble::protocol::{CommandResponse, ProtocolError, ResponsePhase};
use yundrone_ble::trace::{format_trace_event, is_secret_key, response_trace_events, TraceEvent, TraceWriteKind};
use yundrone_ble::trace_box::{wrap_chars, ANSI_BLUE, ANSI_GREEN, ANSI_RESET};

fn has_box_chars(text: &str) -> bool {
    text.contains('╭') || text.contains('╰') || text.contains('│')
}

fn packet_lines(text: &str) -> Vec<&str> {
    let mut in_packet = false;
    text.lines()
        .filter(|line| {
            if line.contains("packet") {
                in_packet = true;
            }
            in_packet && !line.contains('╰')
        })
        .collect()
}

#[test]
fn formats_tx_qos_and_assembled_events() {
    let tx = format_trace_event(&TraceEvent::TxRaw {
        kind: TraceWriteKind::Request,
        bytes: br#"{"cmd":"system.status"}"#.to_vec(),
        redacted: false,
    });
    let qos = format_trace_event(&TraceEvent::QosChunkAck {
        response_id: "req".to_string(),
        response_seq: 2,
        chunk_index: 1,
        chunk_total: 3,
    });
    let assembled_bytes = br#"{"id":"req","ok":true,"data":{"answer":42}}"#.to_vec();
    let assembled = format_trace_event(&TraceEvent::RxAssembled { bytes: assembled_bytes.clone() });

    assert!(tx.contains("[TX:raw]"));
    assert!(tx.contains("packet"));
    assert!(tx.contains("\x1b[32m"));
    assert!(qos.contains("[QOS:ack]"));
    assert!(qos.contains("id=req"));
    assert!(qos.contains("seq=2"));
    assert!(qos.contains("chunk=1/3"));
    assert!(!has_box_chars(&qos));
    assert!(assembled.contains("[RX:assembled]"));
    assert!(assembled.contains("\x1b[35m"));
    assert!(assembled.contains(&format!("bytes  {}", assembled_bytes.len())));
    assert!(assembled.contains("\"ok\": true"));
    assert!(assembled.contains("  \"data\": {"));
    assert!(has_box_chars(&assembled));
    assert!(packet_lines(&assembled).iter().all(|line| !line.contains('│')));
}

#[test]
fn formats_only_raw_transport_packets_as_colored_frames() {
    let formatted = format_trace_event(&TraceEvent::TxRaw {
        kind: TraceWriteKind::Request,
        bytes: br#"{"cmd":"system.status"}"#.to_vec(),
        redacted: false,
    });
    let received = format_trace_event(&TraceEvent::RxRaw { bytes: br#"{"id":"req","ok":true}"#.to_vec() });
    let chunk = format_trace_event(&TraceEvent::RxChunk {
        response_id: "req".to_string(),
        mode: "response_json".to_string(),
        index: 1,
        total: 2,
        payload: "{\"id\":\"req\"".to_string(),
    });

    assert!(formatted.starts_with(ANSI_GREEN));
    assert!(formatted.contains('╭'));
    assert!(formatted.contains("[TX:raw]"));
    assert!(formatted.contains("\x1b[32m"));
    assert!(formatted.contains("kind     request"));
    assert!(formatted.contains("{\"cmd\":\"system.status\"}"));
    assert!(packet_lines(&formatted).iter().any(|line| line.contains('│')));
    assert!(formatted.ends_with(ANSI_RESET));
    assert!(received.starts_with(ANSI_BLUE));
    assert!(received.contains('╭'));
    assert!(received.contains("[RX:raw]"));
    assert!(received.contains("\x1b[34m"));
    assert!(received.contains("{\"id\":\"req\",\"ok\":true}"));
    assert!(packet_lines(&received).iter().any(|line| line.contains('│')));
    assert!(!has_box_chars(&chunk));
    assert!(chunk.starts_with("[RX:chunk]"));
    assert!(chunk.contains("id=req"));
    assert!(chunk.contains("mode=response_json"));
    assert!(chunk.contains("index=1/2"));
    assert!(chunk.contains("payload_bytes=11"));
    assert!(!chunk.contains("payload="));
}

#[test]
fn framed_lines_have_a_fixed_width() {
    let formatted = format_trace_event(&TraceEvent::RxRaw { bytes: vec![b'a'; 300] });
    let lines: Vec<&str> = formatted.lines().collect();
    let widths: Vec<usize> = lines
        .iter()
        .map(|l| l.replace(ANSI_BLUE, "").replace(ANSI_RESET, "").chars().count())
        .collect();
    assert!(widths.iter().all(|w| *w == 118));
    assert_eq!(lines.len(), 6);
}

#[test]
fn wrapping_cuts_into_fixed_pieces() {
    assert_eq!(wrap_chars("", 3), vec![String::new()]);
    assert_eq!(wrap_chars("abcdefg", 3), vec!["abc".to_string(), "def".to_string(), "g".to_string()]);
    assert_eq!(wrap_chars("abcdef", 3), vec!["abc".to_string(), "def".to_string()]);
}

#[test]
fn one_line_events_join_their_fields() {
    let retry = format_trace_event(&TraceEvent::RequestRetry {
        request_id: "r".to_string(),
        attempt: 2,
        error: "busy".to_string(),
    });
    assert_eq!(retry, "[QOS:retry] id=r attempt=2 error=busy");
    let frame = format_trace_event(&TraceEvent::RxFrame {
        response_id: "r".to_string(),
        cmd: None,
        code: "OK".to_string(),
        phase: ResponsePhase::Progress,
        final_flag: false,
        text: "t".to_string(),
    });
    assert_eq!(frame, "[RX:frame] id=r cmd=<missing> code=OK phase=Progress final=false text=t");
}

#[test]
fn secret_keys_are_recognised_in_any_case() {
    assert!(is_secret_key("pwd"));
    assert!(is_secret_key("PassWord"));
    assert!(is_secret_key("PSK"));
    assert!(is_secret_key("passphrase"));
    assert!(!is_secret_key("ssid"));
    assert!(!is_secret_key("pwd2"));
}

#[test]
fn unparsed_notifications_trace_as_bad_json() {
    let events = response_trace_events(b"{", Err(ProtocolError::BadJson("eof".to_string())));
    assert_eq!(events.len(), 2);
    assert_eq!(events[0], TraceEvent::RxRaw { bytes: b"{".to_vec() });
    match &events[1] {
        TraceEvent::RxFrame { response_id, code, text, final_flag, .. } => {
            assert_eq!(response_id, "<parse-error>");
            assert_eq!(code, "BAD_JSON");
            assert_eq!(text, "Bad JSON: eof");
            assert!(*final_flag);
        }
        other => panic!("unexpected event {other:?}"),
    }
    let ok = response_trace_events(b"x", Ok(CommandResponse::ok("r".to_string(), "t".to_string(), None)));
    assert!(matches!(&ok[1], TraceEvent::RxFrame { response_id, .. } if response_id == "r"));
}

#[test]
fn formats_rx_chunk_event() {
    // The first response_json chunk of a long "req" response, as the gateway sends it.
    let full = format!(r#"{{"id":"req","phase":"result","seq":1,"final":true,"ok":true,"code":"OK","text":"{}","v":"2"}}"#, "x".repeat(500));
    let payload = full[..200].to_string();
    let chunk_meta = vec![
        JsonEntry { key: "mode".to_string(), value: JsonValue::String("response_json".to_string()) },
        JsonEntry { key: "index".to_string(), value: JsonValue::Number(JsonNumber::Unsigned(1)) },
        JsonEntry { key: "total".to_string(), value: JsonValue::Number(JsonNumber::Unsigned(3)) },
        JsonEntry { key: "payload".to_string(), value: JsonValue::String(payload.clone()) },
    ];
    let chunk = CommandResponse::result(
        "req".to_string(),
        None,
        true,
        "OK".to_string(),
        String::new(),
        Some(vec![JsonEntry { key: "chunk".to_string(), value: JsonValue::Object(chunk_meta) }]),
    );
    let raw = format!(
        r#"{{"id":"req","ok":true,"code":"OK","text":"","data":{{"chunk":{{"mode":"response_json","index":1,"total":3,"payload":{payload:?}}}}},"v":"2"}}"#
    );

    let events = response_trace_events(raw.as_bytes(), Ok(chunk));
    let formatted = events.iter().map(format_trace_event).collect::<Vec<_>>();

    assert!(formatted.iter().any(|line| line.contains("[RX:raw]")));
    assert!(formatted.iter().any(|line| line.contains("[RX:chunk]")));
}

#[test]
fn wrapping_at_width_zero_keeps_the_line_after_an_empty_piece() {
    assert_eq!(wrap_chars("abc", 0), vec!["".to_string(), "abc".to_string()]);
    assert_eq!(wrap_chars("", 0), vec!["".to_string()]);
}
