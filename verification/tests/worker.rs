use yundrone_ble::gui_model::{ActionSlot, UiEvent};
use yundrone_ble::protocol::{CommandPayload, CommandResponse};
use yundrone_ble::responses::{
    ProvisionResponseData, ProvisionState, StatusInterfaceIpv4, StatusInterfaceKind, StatusResponseData, WifiNetwork,
    WifiScanResponseData,
};
use yundrone_ble::scan::{ScanCandidateInfo, ScanProgressEvent};
use yundrone_ble::worker_events::{
    command_response_events, command_sent_log, connect_selected_log, disconnect_success_detail,
    heartbeat_disconnected_log, manual_disconnect_log, raw_payload_log, raw_payload_success_detail,
    request_success_detail, response_log_line, scan_completed_detail, scan_completed_log, scan_progress_log,
    scan_stopped_log, ResponseDetails,
};
use yundrone_ble::worker_flow::{command_outcome_events, disconnect_events, DisconnectOutcome};
use yundrone_ble::worker_state::{check_heartbeat_response, WorkerState, HEARTBEAT_DISCONNECT_GRACE_MS};

fn wifi_data() -> WifiScanResponseData {
    WifiScanResponseData {
        ifname: Some("wlan0".to_string()),
        count: 1,
        networks: vec![WifiNetwork { ssid: "LabWiFi".to_string(), channel: "6".to_string(), signal: 78 }],
    }
}

#[test]
fn wifi_scan_response_events_include_loaded_networks_and_summary() {
    let response = CommandResponse::ok("req-1".to_string(), "wifi scan complete".to_string(), None);

    let events = command_response_events(
        &CommandPayload::WifiScan { ifname: None },
        &response,
        Ok(ResponseDetails::WifiScan(wifi_data())),
    )
    .unwrap();

    assert!(matches!(&events[0], UiEvent::WifiScanLoaded(networks) if networks.len() == 1));
    assert!(matches!(&events[1], UiEvent::CommandCompleted(summary) if summary.request_id == "req-1"));
    assert!(matches!(&events[2], UiEvent::Log(line) if line.contains("wifi scan complete")));
}

#[test]
fn non_wifi_response_events_skip_wifi_network_loading() {
    let response = CommandResponse::ok("req-2".to_string(), "status collected".to_string(), None);
    let data = StatusResponseData {
        device_name: String::new(),
        hostname: "orangepi4pro".to_string(),
        system: "Linux 6.1".to_string(),
        user: "orangepi".to_string(),
        network: Some("LabWiFi".to_string()),
        ip: Some("192.168.10.2".to_string()),
        interfaces: vec![
            StatusInterfaceIpv4 { ifname: "wlan0".to_string(), kind: StatusInterfaceKind::Wifi, ipv4: "192.168.10.2".to_string() },
            StatusInterfaceIpv4 { ifname: "eth0".to_string(), kind: StatusInterfaceKind::Ethernet, ipv4: "10.24.6.9".to_string() },
        ],
    };

    let events = command_response_events(&CommandPayload::SystemStatus, &response, Ok(ResponseDetails::Status(data))).unwrap();

    assert_eq!(events.len(), 3);
    assert!(matches!(
        &events[0],
        UiEvent::DiagnosticResult(result)
            if result.title == "System Status"
            && result.lines.iter().any(|line| line.contains("Network: LabWiFi"))
            && result.lines.iter().any(|line| line.contains("Preferred IP: 192.168.10.2"))
            && result.lines.iter().any(|line| line.contains("wlan0 [wifi] -> 192.168.10.2"))
            && result.lines.iter().any(|line| line.contains("eth0 [ethernet] -> 10.24.6.9"))
            && result.lines.iter().any(|line| line.contains("User: orangepi"))
    ));
    assert!(matches!(&events[1], UiEvent::CommandCompleted(summary) if summary.code == "OK"));
    assert!(matches!(&events[2], UiEvent::Log(line) if line == "<< RX req-2 OK: status collected"));
}

#[test]
fn worker_log_helpers_use_consistent_text() {
    assert_eq!(scan_completed_log(5, 3), "[SYS] Found 5 named device(s); 3 candidate device(s) match the prefix.");
    assert_eq!(command_sent_log("status", "req-1"), ">> TX CMD: status (req-1)");
    assert_eq!(raw_payload_log("{\"cmd\":\"ping\"}"), ">> TX RAW: {\"cmd\":\"ping\"}");
    assert_eq!(response_log_line(&CommandResponse::ok("req-3".to_string(), "done".to_string(), None)), "<< RX req-3 OK: done");
}

#[test]
fn provision_response_emits_provision_result_event() {
    let response = CommandResponse::ok("req-9".to_string(), "connected".to_string(), None);

    let events = command_response_events(
        &CommandPayload::WifiProvision { ssid: "LabWiFi".to_string(), pwd: Some("12345678".to_string()) },
        &response,
        Ok(ResponseDetails::Provision(ProvisionResponseData {
            status: ProvisionState::Connected,
            ssid: "LabWiFi".to_string(),
            ip: Some("192.168.1.23".to_string()),
        })),
    )
    .unwrap();

    assert!(matches!(&events[0], UiEvent::ProvisionResult(result) if result.ssid == "LabWiFi"));
}

#[test]
fn scan_progress_log_marks_matching_devices() {
    let line = scan_progress_log(&ScanProgressEvent {
        device_name: "Yundrone_UAV-15-19-A7".to_string(),
        rssi: Some(-48),
        matches_prefix: true,
    });

    assert_eq!(line, "[SCAN][MATCH] Yundrone_UAV-15-19-A7 (-48 dBm)");
}

#[test]
fn scan_progress_log_handles_unknown_signal() {
    let line = scan_progress_log(&ScanProgressEvent { device_name: "Beacon_123".to_string(), rssi: None, matches_prefix: false });

    assert_eq!(line, "[SCAN] Beacon_123 (RSSI unknown)");
}

#[test]
fn scan_control_logs_are_operator_friendly() {
    assert_eq!(scan_stopped_log(), "[SYS] Scan stopped by user.");
    assert_eq!(
        connect_selected_log("Yundrone_UAV-03-17-5433"),
        "[SYS] Candidate selected, stopping scan and connecting to Yundrone_UAV-03-17-5433..."
    );
    assert_eq!(manual_disconnect_log("Yundrone_UAV-03-17-5433"), "[SYS] Disconnected from Yundrone_UAV-03-17-5433.");
    assert_eq!(
        heartbeat_disconnected_log("Yundrone_UAV-03-17-5433", 3, true),
        "[ERR] Heartbeat failed 3 times for Yundrone_UAV-03-17-5433, grace window elapsed and connection was marked as disconnected."
    );
}

#[test]
fn request_success_detail_summarizes_wifi_scan_results() {
    let mut data = wifi_data();
    data.count = 2;
    data.networks.push(WifiNetwork { ssid: "DroneMesh".to_string(), channel: "11".to_string(), signal: 63 });
    let response = CommandResponse::ok("req-10".to_string(), "wifi scan complete".to_string(), None);

    let detail = request_success_detail(
        ActionSlot::WifiScan,
        &CommandPayload::WifiScan { ifname: None },
        &response,
        Ok(ResponseDetails::WifiScan(data)),
    )
    .unwrap();

    assert_eq!(detail.as_deref(), Some("2"));
}

#[test]
fn action_summary_helpers_cover_device_and_raw_actions() {
    assert_eq!(scan_completed_detail(3), Some("3".to_string()));
    assert_eq!(disconnect_success_detail("Yundrone_UAV-03-17-5433"), Some("Yundrone_UAV-03-17-5433".to_string()));
    assert_eq!(raw_payload_success_detail(), Some("written".to_string()));
}

#[test]
fn worker_state_sets_disconnect_deadline_from_first_heartbeat_failure() {
    let mut state = WorkerState::new();
    let started = 5_000u64;

    let failures = state.record_heartbeat_failure(started);

    assert_eq!(failures, 1);
    assert_eq!(state.heartbeat_disconnect_deadline(), Some(started + 12_000));
    assert_eq!(HEARTBEAT_DISCONNECT_GRACE_MS, 12_000);
}

#[test]
fn worker_state_keeps_original_disconnect_deadline_during_grace_window() {
    let mut state = WorkerState::new();
    let started = 5_000u64;

    state.record_heartbeat_failure(started);
    let deadline = state.heartbeat_disconnect_deadline().unwrap();
    state.record_heartbeat_failure(started + 5_000);

    assert_eq!(state.heartbeat_disconnect_deadline(), Some(deadline));
}

#[test]
fn heartbeat_grace_elapses_and_resets() {
    let mut state = WorkerState::new();
    state.record_heartbeat_failure(0);
    assert!(!state.heartbeat_deadline_elapsed(11_999));
    assert!(state.heartbeat_deadline_elapsed(12_000));
    state.record_heartbeat_failure(1);
    state.record_heartbeat_failure(2);
    assert!(state.heartbeat_failure_threshold_reached());
    state.reset_heartbeat_failures();
    assert_eq!(state.heartbeat_failures(), 0);
    assert!(!state.heartbeat_deadline_elapsed(u64::MAX));
}

#[test]
fn stale_scans_are_not_current() {
    let mut state = WorkerState::new();
    let first = state.begin_scan();
    let second = state.begin_scan();
    assert!(second > first);
    assert!(!state.finish_scan(first));
    assert!(state.is_active_scan(second));
    assert!(state.finish_scan(second));
    assert!(!state.cancel_scan());
}

#[test]
fn connection_targets_are_found_by_name() {
    let mut state = WorkerState::new();
    assert_eq!(state.take_connection_target("a").unwrap_err(), "No scanned devices available");
    state.begin_scan();
    assert!(state.add_discovered_device(ScanCandidateInfo { name: "a".to_string(), rssi: None }));
    assert!(!state.add_discovered_device(ScanCandidateInfo { name: "a".to_string(), rssi: Some(-3) }));
    assert!(state.add_discovered_device(ScanCandidateInfo { name: "b".to_string(), rssi: None }));
    assert_eq!(state.take_connection_target("b"), Ok(1));
    state.begin_scan();
    assert_eq!(state.take_connection_target("zz").unwrap_err(), "Scanned device 'zz' is no longer available");
}

#[test]
fn heartbeat_answers_are_checked() {
    let ok = CommandResponse::ok("hb-1".to_string(), "alive".to_string(), None);
    assert!(check_heartbeat_response("hb-1", &ok).is_ok());
    assert_eq!(
        check_heartbeat_response("hb-2", &ok).unwrap_err(),
        "Heartbeat response id mismatch: expected hb-2, got hb-1"
    );
}

#[test]
fn failed_commands_report_the_response_text() {
    let request = yundrone_ble::protocol::CommandRequest::new("req-1".to_string(), CommandPayload::LinkHeartbeat);
    let response = CommandResponse::error("req-1".to_string(), "BUSY".to_string(), "busy now".to_string());
    let events = command_outcome_events(ActionSlot::Status, &request, &response, Ok(ResponseDetails::Other), Ok(ResponseDetails::Other));
    assert!(matches!(
        events.last().unwrap(),
        UiEvent::ActionFailed { slot: ActionSlot::Status, error, .. } if error == "busy now"
    ));
}

#[test]
fn ping_success_reports_the_response_code() {
    let request = yundrone_ble::protocol::CommandRequest::new("req-7".to_string(), CommandPayload::LinkHeartbeat);
    let response = CommandResponse::ok("req-7".to_string(), "alive".to_string(), None);
    let events = command_outcome_events(ActionSlot::Ping, &request, &response, Ok(ResponseDetails::Other), Ok(ResponseDetails::Other));
    assert!(matches!(
        events.last().unwrap(),
        UiEvent::ActionSucceeded { slot: ActionSlot::Ping, detail: Some(d), .. } if d == "OK"
    ));
}

#[test]
fn undecodable_data_does_not_fail_a_command_that_needs_none() {
    let request = yundrone_ble::protocol::CommandRequest::new("req-8".to_string(), CommandPayload::LinkHeartbeat);
    let response = CommandResponse::ok("req-8".to_string(), "alive".to_string(), None);
    let events = command_outcome_events(
        ActionSlot::RawSend,
        &request,
        &response,
        Err("bad data".to_string()),
        Err("bad data".to_string()),
    );
    assert_eq!(events.len(), 3);
    assert!(matches!(events.last().unwrap(), UiEvent::ActionSucceeded { slot: ActionSlot::RawSend, detail: None, .. }));
}

#[test]
fn manual_disconnect_reports_the_outcome() {
    let events = disconnect_events("dev", DisconnectOutcome::TimedOut);
    assert_eq!(events.len(), 4);
    assert!(matches!(&events[3], UiEvent::Error(e) if e == "Disconnect fail: timed out after 2s"));
    let events = disconnect_events("dev", DisconnectOutcome::Done);
    assert!(matches!(&events[3], UiEvent::ActionSucceeded { detail: Some(d), .. } if d == "dev"));
}
