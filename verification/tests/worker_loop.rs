use yundrone_ble::gui_model::{ActionSlot, DisconnectReason, UiEvent};
use yundrone_ble::scan::{rank_scan_candidates, ScanCandidateInfo, ScanProgressEvent, ScanRunSummary};
use yundrone_ble::worker_flow::DisconnectOutcome;
use yundrone_ble::worker_loop::{
    apply_scan_event, command_received_events, connect_begin_events, connect_finished_events, connect_requested_events,
    heartbeat_drop_events, heartbeat_result_events, heartbeat_tick, not_connected_events,
    raw_send_begin_events, raw_send_finished_events, scan_requested_events, stop_scan_events,
    BtleCommand, HeartbeatStep, ScanWorkerEvent,
};
use yundrone_ble::worker_state::WorkerState;

fn info(name: &str, rssi: Option<i16>) -> ScanCandidateInfo {
    ScanCandidateInfo { name: name.to_string(), rssi }
}

fn scanning_state() -> (WorkerState, u64) {
    let mut state = WorkerState::new();
    let id = state.begin_scan();
    (state, id)
}

#[test]
fn scan_request_stops_running_scan_first() {
    let (mut state, _) = scanning_state();
    let events = scan_requested_events(&mut state, "yundrone");
    assert_eq!(events.len(), 5);
    assert_eq!(events[0], UiEvent::ScanStopped);
    assert_eq!(
        events[1],
        UiEvent::ActionSucceeded {
            slot: ActionSlot::DeviceScan,
            request_id: None,
            detail: Some("stopped".to_string())
        }
    );
    assert_eq!(events[2], UiEvent::ActionStarted { slot: ActionSlot::DeviceScan, request_id: None });
    assert_eq!(events[3], UiEvent::ScanStarted);
    assert_eq!(events[4], UiEvent::Log("[SYS] Scanning for 'yundrone'...".to_string()));
}

#[test]
fn scan_request_without_running_scan_only_starts() {
    let mut state = WorkerState::new();
    let events = scan_requested_events(&mut state, "yd");
    assert_eq!(events.len(), 3);
    assert_eq!(events[1], UiEvent::ScanStarted);
}

#[test]
fn stop_scan_without_scan_reports_nothing() {
    let mut state = WorkerState::new();
    assert!(stop_scan_events(&mut state).is_empty());
    let (mut state, _) = scanning_state();
    let events = stop_scan_events(&mut state);
    assert_eq!(events.len(), 3);
    assert_eq!(events[2], UiEvent::Log("[SYS] Scan stopped by user.".to_string()));
    assert!(stop_scan_events(&mut state).is_empty());
}

#[test]
fn connect_request_logs_the_pick_when_a_scan_was_stopped() {
    let (mut state, _) = scanning_state();
    let events = connect_requested_events(&mut state, "YD-1");
    assert_eq!(events.len(), 3);
    assert_eq!(
        events[2],
        UiEvent::Log("[SYS] Candidate selected, stopping scan and connecting to YD-1...".to_string())
    );
}

#[test]
fn stale_scan_events_are_dropped() {
    let (mut state, first) = scanning_state();
    let second = state.begin_scan();
    assert_ne!(first, second);
    let events = apply_scan_event(&mut state, ScanWorkerEvent::Candidate { scan_id: first, device: info("YD-1", Some(-40)) });
    assert!(events.is_empty());
    let events = apply_scan_event(
        &mut state,
        ScanWorkerEvent::Finished {
            scan_id: first,
            summary: ScanRunSummary { named_device_count: 3, candidate_count: 1, cancelled: false },
        },
    );
    assert!(events.is_empty());
    assert!(state.is_active_scan(second));
}

#[test]
fn current_scan_events_are_reported() {
    let (mut state, id) = scanning_state();
    let progress = ScanProgressEvent { device_name: "YD-1".to_string(), rssi: Some(-40), matches_prefix: true };
    let events = apply_scan_event(&mut state, ScanWorkerEvent::Progress { scan_id: id, event: progress });
    assert_eq!(events, vec![UiEvent::Log("[SCAN][MATCH] YD-1 (-40 dBm)".to_string())]);

    let events = apply_scan_event(&mut state, ScanWorkerEvent::Candidate { scan_id: id, device: info("YD-1", Some(-40)) });
    assert_eq!(events, vec![UiEvent::ScanCandidateDiscovered(info("YD-1", Some(-40)))]);

    let events = apply_scan_event(
        &mut state,
        ScanWorkerEvent::Finished {
            scan_id: id,
            summary: ScanRunSummary { named_device_count: 4, candidate_count: 1, cancelled: false },
        },
    );
    assert_eq!(events.len(), 3);
    assert_eq!(
        events[0],
        UiEvent::ActionSucceeded { slot: ActionSlot::DeviceScan, request_id: None, detail: Some("1".to_string()) }
    );
    assert_eq!(
        events[1],
        UiEvent::Log("[SYS] Found 4 named device(s); 1 candidate device(s) match the prefix.".to_string())
    );
    assert_eq!(events[2], UiEvent::ScanFinished);
    assert!(!state.is_active_scan(id));
}

#[test]
fn scan_without_candidates_fails() {
    let (mut state, id) = scanning_state();
    let events = apply_scan_event(
        &mut state,
        ScanWorkerEvent::Finished {
            scan_id: id,
            summary: ScanRunSummary { named_device_count: 2, candidate_count: 0, cancelled: false },
        },
    );
    let error = "Device not found after scan window elapsed".to_string();
    assert_eq!(
        events,
        vec![
            UiEvent::ActionFailed { slot: ActionSlot::DeviceScan, request_id: None, error: error.clone() },
            UiEvent::Error(error)
        ]
    );
}

#[test]
fn failed_scan_reports_its_error() {
    let (mut state, id) = scanning_state();
    let events = apply_scan_event(&mut state, ScanWorkerEvent::Failed { scan_id: id, error: "adapter off".to_string() });
    assert_eq!(
        events,
        vec![
            UiEvent::ActionFailed {
                slot: ActionSlot::DeviceScan,
                request_id: None,
                error: "adapter off".to_string()
            },
            UiEvent::Error("adapter off".to_string())
        ]
    );
}

#[test]
fn connect_finds_the_scanned_device() {
    let (mut state, id) = scanning_state();
    apply_scan_event(&mut state, ScanWorkerEvent::Candidate { scan_id: id, device: info("YD-A", None) });
    apply_scan_event(&mut state, ScanWorkerEvent::Candidate { scan_id: id, device: info("YD-B", Some(-50)) });
    let (events, target) = connect_begin_events(&mut state, "YD-B");
    assert_eq!(target, Some(1));
    assert_eq!(events[0], UiEvent::ActionStarted { slot: ActionSlot::Connect, request_id: None });
    assert_eq!(events[1], UiEvent::ConnectingToCandidate("YD-B".to_string()));
    assert_eq!(events[2], UiEvent::Log("[SYS] Connecting to YD-B...".to_string()));

    let events = connect_finished_events(&mut state, "YD-B", Ok("YD-B (gw)".to_string()));
    assert_eq!(events[0], UiEvent::ConnectedDeviceSelected("YD-B".to_string()));
    assert_eq!(
        events[1],
        UiEvent::ActionSucceeded { slot: ActionSlot::Connect, request_id: None, detail: Some("YD-B (gw)".to_string()) }
    );
    assert_eq!(events[2], UiEvent::Log("[SYS] Handshake complete. MTU synced.".to_string()));
    assert!(state.has_active_session());
}

#[test]
fn connect_to_unknown_device_fails() {
    let (mut state, id) = scanning_state();
    apply_scan_event(&mut state, ScanWorkerEvent::Candidate { scan_id: id, device: info("YD-A", None) });
    let (events, target) = connect_begin_events(&mut state, "YD-Z");
    assert_eq!(target, None);
    let error = "Scanned device 'YD-Z' is no longer available".to_string();
    assert_eq!(events[1], UiEvent::ActionFailed { slot: ActionSlot::Connect, request_id: None, error: error.clone() });
    assert_eq!(events[2], UiEvent::Error(error));

    let mut idle = WorkerState::new();
    let (events, target) = connect_begin_events(&mut idle, "YD-A");
    assert_eq!(target, None);
    assert_eq!(events[2], UiEvent::Error("No scanned devices available".to_string()));
}

#[test]
fn connect_failure_returns_to_idle() {
    let (mut state, _) = scanning_state();
    let events = connect_finished_events(&mut state, "YD-A", Err("timeout".to_string()));
    assert_eq!(
        events,
        vec![
            UiEvent::ActionFailed {
                slot: ActionSlot::Connect,
                request_id: None,
                error: "Connect failed: timeout".to_string()
            },
            UiEvent::ConnectionFailed("Connect failed: timeout".to_string())
        ]
    );
    assert!(!state.has_active_session());
}

#[test]
fn raw_send_needs_a_link() {
    let state = WorkerState::new();
    let events = raw_send_begin_events(&state, ActionSlot::RawSend, "{}");
    assert_eq!(events, not_connected_events(ActionSlot::RawSend));
    assert_eq!(events[1], UiEvent::Error("Not connected".to_string()));

    let mut linked = WorkerState::new();
    linked.activate_session();
    let events = raw_send_begin_events(&linked, ActionSlot::RawSend, "  {\"cmd\":1}\n");
    assert_eq!(events[0], UiEvent::ActionStarted { slot: ActionSlot::RawSend, request_id: None });
    assert_eq!(events[1], UiEvent::Log(">> TX RAW: {\"cmd\":1}".to_string()));
}

#[test]
fn raw_send_outcomes() {
    assert_eq!(
        raw_send_finished_events(ActionSlot::RawSend, Ok(())),
        vec![UiEvent::ActionSucceeded { slot: ActionSlot::RawSend, request_id: None, detail: Some("written".to_string()) }]
    );
    let events = raw_send_finished_events(ActionSlot::RawSend, Err("gatt".to_string()));
    assert_eq!(events[1], UiEvent::Error("Write fail: gatt".to_string()));
}

#[test]
fn third_missed_heartbeat_drops_the_link() {
    let mut state = WorkerState::new();
    state.activate_session();
    assert!(matches!(heartbeat_tick(&state, 0), HeartbeatStep::Probe));
    let (events, drop) = heartbeat_result_events(&mut state, 1_000, Err("timeout".to_string()));
    assert_eq!(events, vec![UiEvent::HeartbeatMissed(1)]);
    assert_eq!(drop, None);
    let (_, drop) = heartbeat_result_events(&mut state, 2_000, Err("timeout".to_string()));
    assert_eq!(drop, None);
    let (events, drop) = heartbeat_result_events(&mut state, 3_000, Err("timeout".to_string()));
    assert_eq!(events, vec![UiEvent::HeartbeatMissed(3)]);
    assert_eq!(drop, Some(3));
}

#[test]
fn good_heartbeat_clears_failures() {
    let mut state = WorkerState::new();
    state.activate_session();
    heartbeat_result_events(&mut state, 1_000, Err("timeout".to_string()));
    let (events, drop) = heartbeat_result_events(&mut state, 2_000, Ok("12:00:01".to_string()));
    assert_eq!(events, vec![UiEvent::HeartbeatOk { at: "12:00:01".to_string() }]);
    assert_eq!(drop, None);
    assert_eq!(state.heartbeat_failures(), 0);
    assert_eq!(state.heartbeat_disconnect_deadline(), None);
}

#[test]
fn grace_window_end_drops_the_link() {
    let mut state = WorkerState::new();
    state.activate_session();
    heartbeat_result_events(&mut state, 1_000, Err("timeout".to_string()));
    assert!(matches!(heartbeat_tick(&state, 12_999), HeartbeatStep::Probe));
    match heartbeat_tick(&state, 13_000) {
        HeartbeatStep::Drop { failures, grace_elapsed } => {
            assert_eq!(failures, 1);
            assert!(grace_elapsed);
        }
        _ => panic!("expected a drop"),
    }
    assert!(matches!(heartbeat_tick(&WorkerState::new(), 0), HeartbeatStep::Skip));
}

#[test]
fn heartbeat_drop_reports_and_idles() {
    let mut state = WorkerState::new();
    state.activate_session();
    let events = heartbeat_drop_events(&mut state, Some("YD-1"), 3, false, Some(DisconnectOutcome::TimedOut));
    assert_eq!(
        events,
        vec![
            UiEvent::Log("[ERR] Heartbeat failed 3 times for YD-1, connection marked as disconnected.".to_string()),
            UiEvent::Disconnected { reason: DisconnectReason::HeartbeatFailed },
            UiEvent::Error("Disconnect fail: timed out after 2s".to_string())
        ]
    );
    assert!(!state.has_active_session());

    let events = heartbeat_drop_events(&mut state, None, 1, true, Some(DisconnectOutcome::Failed("busy".to_string())));
    assert_eq!(
        events[0],
        UiEvent::Log(
            "[ERR] Heartbeat failed 1 times for device, grace window elapsed and connection was marked as disconnected."
                .to_string()
        )
    );
    assert_eq!(events[2], UiEvent::Error("Disconnect fail: busy".to_string()));

    let events = heartbeat_drop_events(&mut state, None, 1, true, None);
    assert_eq!(events, vec![UiEvent::Disconnected { reason: DisconnectReason::HeartbeatFailed }]);
}

#[test]
fn ranked_candidates_put_strongest_first() {
    let ranked = rank_scan_candidates(
        vec![info("YD-B", Some(-70)), info("YD-C", None), info("YD-A", Some(-70)), info("YD-D", Some(-30))],
        "YD",
        8,
    )
    .unwrap();
    let names: Vec<&str> = ranked.iter().map(|c| c.name.as_str()).collect();
    assert_eq!(names, vec!["YD-D", "YD-A", "YD-B", "YD-C"]);
    assert_eq!(
        rank_scan_candidates(Vec::new(), "yundrone", 8).unwrap_err(),
        "Device 'yundrone' not found after 8s scan"
    );
}

#[test]
fn commands_deal_with_the_running_scan_first() {
    let (mut state, _) = scanning_state();
    let events = command_received_events(&mut state, &BtleCommand::ConnectToCandidate { name: "YD-2".to_string() });
    assert_eq!(events.len(), 3);
    assert_eq!(events[0], UiEvent::ScanStopped);

    let events = command_received_events(&mut state, &BtleCommand::ScanCandidates { prefix: "YD".to_string(), timeout_secs: 8 });
    assert_eq!(events.len(), 3);
    assert_eq!(events[2], UiEvent::Log("[SYS] Scanning for 'YD'...".to_string()));

    let events = command_received_events(&mut state, &BtleCommand::Disconnect);
    assert!(events.is_empty());
    let events = command_received_events(
        &mut state,
        &BtleCommand::SendRaw { slot: ActionSlot::RawSend, payload: "{}".to_string() },
    );
    assert!(events.is_empty());
}
