use yundrone_ble::action_text::{failure_text, heartbeat_summary, idle_text, panel_is_refreshing, running_text, success_text};
use yundrone_ble::cli_text::Lang;
use yundrone_ble::gui_model::{
    clear_logs, export_logs, format_scan_candidate_label, header_badge_text, latest_feedback_for_slots,
    ActionFeedback, ActionPhase, ActionSlot, AppModel, CommandResultSummary, DiagnosticResultCard, DisconnectReason,
    ProvisionResultCard, UiEvent,
};
use yundrone_ble::gui_reducer::reduce;
use yundrone_ble::responses::WifiNetwork;
use yundrone_ble::scan::ScanCandidateInfo;
use yundrone_ble::wifi_rows::{aggregate_wifi_networks, merge_channel, normalize_channels};

fn feedback(model: &AppModel, slot: ActionSlot) -> &ActionFeedback {
    model.action_feedback[slot.index()].as_ref().unwrap()
}

#[test]
fn action_started_marks_model_busy_without_clearing_previous_result_cards() {
    let mut model = AppModel {
        provision_result: Some(ProvisionResultCard {
            ok: true,
            code: "PROVISION_SUCCESS".to_string(),
            status: "Connected".to_string(),
            ssid: "LabWiFi".to_string(),
            ip: Some("192.168.10.2".to_string()),
            text: "connected".to_string(),
        }),
        ..AppModel::default()
    };

    reduce(&mut model, UiEvent::ActionStarted { slot: ActionSlot::Provision, request_id: Some("req-1".to_string()) });

    assert_eq!(model.active_action, Some(ActionSlot::Provision));
    let feedback = feedback(&model, ActionSlot::Provision);
    assert_eq!(feedback.phase, ActionPhase::Running);
    assert_eq!(feedback.request_id.as_deref(), Some("req-1"));
    assert!(model.provision_result.is_some());
}

#[test]
fn action_succeeded_clears_busy_state_and_records_summary() {
    let mut model = AppModel::default();

    reduce(&mut model, UiEvent::ActionStarted { slot: ActionSlot::Status, request_id: Some("req-2".to_string()) });
    reduce(
        &mut model,
        UiEvent::ActionSucceeded {
            slot: ActionSlot::Status,
            request_id: Some("req-2".to_string()),
            detail: Some("status-updated".to_string()),
        },
    );

    assert!(model.active_action.is_none());
    let feedback = feedback(&model, ActionSlot::Status);
    assert_eq!(feedback.phase, ActionPhase::Succeeded);
    assert_eq!(feedback.detail.as_deref(), Some("status-updated"));
}

#[test]
fn action_failed_clears_busy_state_and_preserves_error_text() {
    let mut model = AppModel::default();

    reduce(&mut model, UiEvent::ActionStarted { slot: ActionSlot::WifiScan, request_id: Some("req-3".to_string()) });
    reduce(
        &mut model,
        UiEvent::ActionFailed {
            slot: ActionSlot::WifiScan,
            request_id: Some("req-3".to_string()),
            error: "Timed out".to_string(),
        },
    );

    assert!(model.active_action.is_none());
    let feedback = feedback(&model, ActionSlot::WifiScan);
    assert_eq!(feedback.phase, ActionPhase::Failed);
    assert_eq!(feedback.error.as_deref(), Some("Timed out"));
}

#[test]
fn latest_feedback_prefers_most_recent_slot_within_same_panel() {
    let mut model = AppModel::default();

    reduce(
        &mut model,
        UiEvent::ActionSucceeded {
            slot: ActionSlot::Status,
            request_id: Some("req-4".to_string()),
            detail: Some("status".to_string()),
        },
    );
    reduce(
        &mut model,
        UiEvent::ActionSucceeded {
            slot: ActionSlot::Ping,
            request_id: Some("req-5".to_string()),
            detail: Some("ping".to_string()),
        },
    );

    let feedback = latest_feedback_for_slots(&model, &[ActionSlot::Status, ActionSlot::Ping])
        .expect("latest feedback should exist");
    assert_eq!(feedback.slot, ActionSlot::Ping);
}

#[test]
fn heartbeat_ok_resets_failure_counter_and_records_timestamp() {
    let mut model = AppModel::default();

    reduce(&mut model, UiEvent::ConnectedDeviceSelected("Yundrone_UAV-15-19-A7".to_string()));
    reduce(&mut model, UiEvent::HeartbeatMissed(2));
    reduce(&mut model, UiEvent::HeartbeatOk { at: "12:34:56".to_string() });

    assert!(model.is_connected);
    assert!(model.heartbeat_ok);
    assert_eq!(model.heartbeat_failures, 0);
    assert_eq!(model.last_heartbeat_at.as_deref(), Some("12:34:56"));
}

#[test]
fn heartbeat_disconnect_keeps_existing_result_cards() {
    let mut model = AppModel::default();

    reduce(&mut model, UiEvent::ConnectedDeviceSelected("Yundrone_UAV-15-19-A7".to_string()));
    reduce(
        &mut model,
        UiEvent::DiagnosticResult(DiagnosticResultCard {
            title: "System Status".to_string(),
            ok: true,
            code: "OK".to_string(),
            lines: vec!["Hostname: orangepi4pro".to_string()],
        }),
    );
    reduce(
        &mut model,
        UiEvent::ProvisionResult(ProvisionResultCard {
            ok: true,
            code: "PROVISION_SUCCESS".to_string(),
            status: "Connected".to_string(),
            ssid: "LabWiFi".to_string(),
            ip: Some("192.168.10.2".to_string()),
            text: "connected".to_string(),
        }),
    );
    reduce(&mut model, UiEvent::HeartbeatMissed(2));
    reduce(&mut model, UiEvent::Disconnected { reason: DisconnectReason::HeartbeatFailed });

    assert!(!model.is_connected);
    assert!(!model.is_connecting);
    assert_eq!(model.heartbeat_failures, 0);
    assert!(model.diagnostic_result.is_some());
    assert!(model.provision_result.is_some());
}

#[test]
fn manual_disconnect_returns_to_idle_without_clearing_results() {
    let mut model = AppModel::default();

    reduce(&mut model, UiEvent::ConnectedDeviceSelected("Yundrone_UAV-15-19-A7".to_string()));
    reduce(
        &mut model,
        UiEvent::DiagnosticResult(DiagnosticResultCard {
            title: "Ping Test".to_string(),
            ok: true,
            code: "OK".to_string(),
            lines: vec!["Reachability: pong".to_string()],
        }),
    );
    reduce(&mut model, UiEvent::Disconnected { reason: DisconnectReason::Manual });

    assert!(!model.is_connected);
    assert!(!model.is_connecting);
    assert!(!model.is_scanning);
    assert!(model.connected_device_name.is_none());
    assert!(model.scan_candidates.is_empty());
    assert!(model.diagnostic_result.is_some());
}

#[test]
fn wifi_scan_loaded_updates_model_without_parsing_logs() {
    let mut model = AppModel::default();

    reduce(
        &mut model,
        UiEvent::WifiScanLoaded(vec![WifiNetwork { ssid: "LabWiFi".to_string(), channel: "6".to_string(), signal: 78 }]),
    );

    assert_eq!(model.wifi_list.len(), 1);
    assert_eq!(model.wifi_list[0].ssid, "LabWiFi");
    assert_eq!(model.logs, vec!["[SYS] Init GUI engine..."]);
}

#[test]
fn scan_results_keep_model_disconnected_until_device_is_selected() {
    // The scan results arrive as they do from the worker: a discovered candidate and then
    // the end of the scan (no single results event exists).
    let mut model = AppModel::default();

    reduce(&mut model, UiEvent::ScanStarted);
    reduce(
        &mut model,
        UiEvent::ScanCandidateDiscovered(ScanCandidateInfo { name: "Yundrone_UAV-15-19-A7".to_string(), rssi: Some(-48) }),
    );
    reduce(&mut model, UiEvent::ScanFinished);

    assert!(!model.is_scanning);
    assert!(!model.is_connected);
    assert_eq!(model.scan_candidates.len(), 1);
    assert_eq!(model.scan_candidates[0].name, "Yundrone_UAV-15-19-A7");
}

#[test]
fn command_completed_is_logged_as_display_only_event() {
    let mut model = AppModel::default();

    reduce(
        &mut model,
        UiEvent::CommandCompleted(CommandResultSummary {
            request_id: "req-1".to_string(),
            code: "OK".to_string(),
            text: "status complete".to_string(),
            ok: true,
        }),
    );

    assert_eq!(model.logs.last().unwrap(), "[CMD] req-1 OK: status complete");
    assert!(model.wifi_list.is_empty());
}

#[test]
fn header_badge_text_is_ascii_for_font_safe_rendering() {
    assert!(header_badge_text().is_ascii());
}

#[test]
fn exported_logs_use_single_newlines_without_blank_lines() {
    let model = AppModel {
        logs: vec!["[SYS] one".to_string(), "[SCAN] two".to_string(), "[ERR] three".to_string()],
        ..AppModel::default()
    };

    assert_eq!(export_logs(&model.logs), "[SYS] one\n[SCAN] two\n[ERR] three");
}

#[test]
fn clear_logs_removes_existing_lines() {
    let mut model = AppModel::default();
    model.logs.push("[SCAN] test".to_string());

    clear_logs(&mut model);

    assert!(model.logs.is_empty());
}

fn network(ssid: &str, channel: &str, signal: i32) -> WifiNetwork {
    WifiNetwork { ssid: ssid.to_string(), channel: channel.to_string(), signal }
}

#[test]
fn duplicate_ssids_are_collapsed_into_one_display_row() {
    let rows = aggregate_wifi_networks(&[
        network("LabWiFi", "11", 61),
        network("DroneMesh", "1", 44),
        network("LabWiFi", "6", 78),
        network("LabWiFi", "1", 52),
    ]);

    assert_eq!(rows.len(), 2);
    assert_eq!(rows[0].ssid, "LabWiFi");
    assert_eq!(rows[0].signal, 78);
    assert_eq!(rows[0].instance_count, 3);
    assert_eq!(rows[0].channels, "1, 6, 11");
    assert_eq!(rows[1].ssid, "DroneMesh");
}

#[test]
fn connection_status_labels_do_not_embed_color_emoji_any_more() {
    let en = Lang::En;
    let zh = Lang::Zh;

    for key in ["conn_yes", "conn_yes_warn", "conn_wait", "conn_connecting", "conn_no"] {
        assert!(!en.t(key).contains('🟢'));
        assert!(!en.t(key).contains('🟠'));
        assert!(!en.t(key).contains('🟡'));
        assert!(!en.t(key).contains('🔴'));
        assert!(!zh.t(key).contains('🟢'));
        assert!(!zh.t(key).contains('🟠'));
        assert!(!zh.t(key).contains('🟡'));
        assert!(!zh.t(key).contains('🔴'));
    }
}

#[test]
fn log_window_keeps_the_latest_hundred_lines() {
    let mut model = AppModel::default();
    for i in 0..150 {
        reduce(&mut model, UiEvent::Log(format!("line {i}")));
    }
    assert_eq!(model.logs.len(), 100);
    assert_eq!(model.logs[0], "line 50");
    assert_eq!(model.logs[99], "line 149");
}

#[test]
fn connection_failures_reset_the_link_and_log_the_error() {
    let mut model = AppModel::default();
    reduce(&mut model, UiEvent::ConnectingToCandidate("dev".to_string()));
    assert!(model.is_connecting);
    reduce(&mut model, UiEvent::ConnectionFailed("boom".to_string()));
    assert!(!model.is_connecting && !model.is_connected);
    assert!(model.connected_device_name.is_none());
    assert_eq!(model.logs.last().unwrap(), "[ERR] boom");
}

#[test]
fn channels_are_ordered_non_numeric_first_then_by_number() {
    assert_eq!(normalize_channels("11, 6, , auto, 6, 011, +6"), "auto, +6, 6, 011, 11");
    let mut channels = "1, 6".to_string();
    merge_channel(&mut channels, "6");
    assert_eq!(channels, "1, 6");
    merge_channel(&mut channels, "36");
    assert_eq!(channels, "1, 6, 36");
}

#[test]
fn action_status_texts() {
    assert_eq!(running_text(Lang::En, ActionSlot::DeviceScan), "Searching for devices...");
    assert_eq!(idle_text(Lang::Zh), "空闲");
    let mut model = AppModel::default();
    reduce(&mut model, UiEvent::ActionSucceeded { slot: ActionSlot::WifiScan, request_id: None, detail: Some("4".to_string()) });
    assert_eq!(success_text(Lang::En, feedback(&model, ActionSlot::WifiScan)), "Discovered 4 network(s).");
    reduce(&mut model, UiEvent::ActionFailed { slot: ActionSlot::Ping, request_id: None, error: "x".to_string() });
    assert_eq!(failure_text(Lang::En, feedback(&model, ActionSlot::Ping)), "Action failed: x");
    reduce(&mut model, UiEvent::ActionStarted { slot: ActionSlot::Help, request_id: None });
    assert!(panel_is_refreshing(&model, &[ActionSlot::Status, ActionSlot::Help]));
    assert!(!panel_is_refreshing(&model, &[ActionSlot::Status]));
}

#[test]
fn heartbeat_summary_counts_missed_beats() {
    let mut model = AppModel::default();
    reduce(&mut model, UiEvent::ConnectedDeviceSelected("d".to_string()));
    reduce(&mut model, UiEvent::HeartbeatMissed(2));
    assert_eq!(heartbeat_summary(&model), "heartbeat_missed (2/3)");
}

#[test]
fn device_labels_show_signal() {
    let label = format_scan_candidate_label(&ScanCandidateInfo { name: "a".to_string(), rssi: Some(-5) });
    assert_eq!(label, "a (-5 dBm)");
}
