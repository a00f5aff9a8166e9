use yundrone_ble::json::{JsonEntry, JsonValue};
use yundrone_ble::protocol::{
    error_response_from_json, parse_error_response, request_from_wire, request_to_wire, CommandPayload, CommandRequest, ProtocolError,
    WireCommandRequest, CODE_UNKNOWN_COMMAND, PROTOCOL_VERSION,
};

fn s(text: &str) -> JsonValue {
    JsonValue::String(text.to_string())
}

fn member(key: &str, value: JsonValue) -> JsonEntry {
    JsonEntry { key: key.to_string(), value }
}

fn wire(id: &str, cmd: &str, args: Vec<JsonEntry>, v: &str) -> WireCommandRequest {
    WireCommandRequest { id: id.to_string(), cmd: cmd.to_string(), args, v: v.to_string() }
}

#[test]
fn every_typed_request_round_trips_through_wire_schema() {
    let requests = vec![
        CommandRequest::new("req-capabilities".to_string(), CommandPayload::SystemCapabilities),
        CommandRequest::new("req-heartbeat".to_string(), CommandPayload::LinkHeartbeat),
        CommandRequest::new("req-status".to_string(), CommandPayload::SystemStatus),
        CommandRequest::new("req-profiles-list".to_string(), CommandPayload::WifiProfilesList),
        CommandRequest::new("req-scan".to_string(), CommandPayload::WifiScan { ifname: Some("wlan1".to_string()) }),
        CommandRequest::new(
            "req-provision".to_string(),
            CommandPayload::WifiProvision { ssid: "LabWiFi".to_string(), pwd: Some("secret".to_string()) },
        ),
        CommandRequest::new(
            "req-profiles-delete".to_string(),
            CommandPayload::WifiProfilesDelete { uuids: vec!["profile-uuid".to_string()], force: false },
        ),
    ];

    for request in requests {
        let decoded = request_from_wire(request_to_wire(&request)).unwrap();
        assert_eq!(decoded, request);
    }
}

#[test]
fn parse_request_rejects_bad_command_args() {
    let err = request_from_wire(wire("req-1", "system.status", vec![member("bad", JsonValue::Bool(true))], PROTOCOL_VERSION))
        .unwrap_err();

    match err {
        ProtocolError::BadRequest(message) => assert!(message.contains("does not accept args")),
        other => panic!("unexpected error: {other:?}"),
    }
}

#[test]
fn parse_request_rejects_v1_command_names() {
    let err = request_from_wire(wire("req-old", "ping", vec![], PROTOCOL_VERSION)).unwrap_err();

    match err {
        ProtocolError::BadRequest(message) => assert!(message.contains("unknown command: ping")),
        other => panic!("unexpected error: {other:?}"),
    }
}

#[test]
fn parse_request_rejects_v1_protocol_version() {
    let err = request_from_wire(wire("req-old-version", "link.heartbeat", vec![], "YundroneBT-V1.0.0")).unwrap_err();

    match err {
        ProtocolError::BadRequest(message) => assert!(message.contains("unsupported protocol version")),
        other => panic!("unexpected error: {other:?}"),
    }
}

#[test]
fn parse_error_response_preserves_request_identity_for_debuggers() {
    let raw = br#"{"id":"req-old","cmd":"ping","args":{},"v":"YundroneBT-V2.0.0"}"#;
    let err = request_from_wire(wire("req-old", "ping", vec![], "YundroneBT-V2.0.0")).unwrap_err();
    let response = parse_error_response(raw, &err).expect("id/cmd should be recoverable");

    assert_eq!(response.id, "req-old");
    assert_eq!(response.cmd.as_deref(), Some("ping"));
    assert!(!response.ok);
    assert_eq!(response.code, CODE_UNKNOWN_COMMAND);
    assert!(response.final_flag);
}

#[test]
fn error_response_from_parsed_request_values() {
    // {"id":"req-old","cmd":"ping","args":{},"v":"YundroneBT-V2.0.0"}
    let raw = JsonValue::Object(vec![
        member("id", s("req-old")),
        member("cmd", s("ping")),
        member("args", JsonValue::Object(vec![])),
        member("v", s("YundroneBT-V2.0.0")),
    ]);
    let err = request_from_wire(wire("req-old", "ping", vec![], "YundroneBT-V2.0.0")).unwrap_err();
    let response = error_response_from_json(&raw, &err).expect("id/cmd should be recoverable");

    assert_eq!(response.id, "req-old");
    assert_eq!(response.cmd.as_deref(), Some("ping"));
    assert!(!response.ok);
    assert_eq!(response.code, CODE_UNKNOWN_COMMAND);
    assert!(response.final_flag);
}

#[test]
fn parse_request_decodes_typed_wifi_scan() {
    let decoded = request_from_wire(wire("req-2", "wifi.scan", vec![member("ifname", s("wlan0"))], PROTOCOL_VERSION)).unwrap();

    assert_eq!(decoded.payload, CommandPayload::WifiScan { ifname: Some("wlan0".to_string()) });
}

#[test]
fn parse_error_response_reads_raw_request_bytes() {
    let raw = br#"{"id":"req-old","cmd":"ping","args":{},"v":"YundroneBT-V2.0.0"}"#;
    let err = request_from_wire(wire("req-old", "ping", vec![], "YundroneBT-V2.0.0")).unwrap_err();
    let response = parse_error_response(raw, &err).expect("id/cmd should be recoverable");

    assert_eq!(response.id, "req-old");
    assert_eq!(response.cmd.as_deref(), Some("ping"));
    assert_eq!(response.code, CODE_UNKNOWN_COMMAND);
    assert!(parse_error_response(b"{not json", &err).is_none());
    assert!(parse_error_response(br#"{"cmd":"ping"}"#, &err).is_none());
}
