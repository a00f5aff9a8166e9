use yundrone_ble::gui_model::{ActionSlot, AppModel, DiagnosticResultCard, ProvisionResultCard};
use yundrone_ble::gui_panels::{
    candidate_buttons, connection_indicator, device_commands_enabled, diagnostic_result_header,
    disconnect_control, indicator_label_key, provision_payload, provision_result_lines, raw_send_enabled,
    scan_control, wifi_row_label, wifi_row_selected, wifi_row_signal, ConnectionIndicator, ScanControl,
};
use yundrone_ble::protocol::CommandPayload;
use yundrone_ble::scan::ScanCandidateInfo;
use yundrone_ble::wifi_rows::WifiDisplayRow;

#[test]
fn indicator_prefers_link_warnings() {
    let mut model = AppModel::default();
    assert_eq!(connection_indicator(&model), ConnectionIndicator::Disconnected);
    model.is_scanning = true;
    assert_eq!(connection_indicator(&model), ConnectionIndicator::Waiting);
    model.is_connecting = true;
    assert_eq!(connection_indicator(&model), ConnectionIndicator::Connecting);
    model.is_connected = true;
    assert_eq!(connection_indicator(&model), ConnectionIndicator::Connected);
    model.heartbeat_failures = 1;
    assert_eq!(connection_indicator(&model), ConnectionIndicator::ConnectedWithWarnings);
    assert_eq!(indicator_label_key(ConnectionIndicator::ConnectedWithWarnings), "conn_yes_warn");
    assert_eq!(indicator_label_key(ConnectionIndicator::Disconnected), "conn_no");
}

#[test]
fn scan_button_needs_an_idle_unlinked_client() {
    let mut model = AppModel::default();
    assert_eq!(scan_control(&model), ScanControl::Idle { enabled: true });
    model.active_action = Some(ActionSlot::Ping);
    assert_eq!(scan_control(&model), ScanControl::Idle { enabled: false });
    model.is_scanning = true;
    assert_eq!(scan_control(&model), ScanControl::Running);
}

#[test]
fn disconnect_button_shows_only_while_linked() {
    let mut model = AppModel::default();
    assert_eq!(disconnect_control(&model), None);
    model.connected_device_name = Some("YD-1".to_string());
    assert_eq!(disconnect_control(&model), None);
    model.is_connected = true;
    assert_eq!(disconnect_control(&model), Some(true));
    model.active_action = Some(ActionSlot::Status);
    assert_eq!(disconnect_control(&model), Some(false));
}

#[test]
fn candidate_being_connected_is_marked() {
    let mut model = AppModel::default();
    model.scan_candidates = vec![
        ScanCandidateInfo { name: "YD-1".to_string(), rssi: Some(-48) },
        ScanCandidateInfo { name: "YD-2".to_string(), rssi: None },
    ];
    let buttons = candidate_buttons(&model);
    assert_eq!(buttons.len(), 2);
    assert_eq!(buttons[0].label, "YD-1 (-48 dBm)");
    assert!(buttons[0].enabled);

    model.is_connecting = true;
    model.connected_device_name = Some("YD-2".to_string());
    let buttons = candidate_buttons(&model);
    assert_eq!(buttons[1].label, "YD-2 (RSSI unknown) [conn_connecting]");
    assert_eq!(buttons[1].name, "YD-2");
    assert!(!buttons[1].enabled);

    model.is_connecting = false;
    model.active_action = Some(ActionSlot::DeviceScan);
    assert!(candidate_buttons(&model)[0].enabled);
    model.active_action = Some(ActionSlot::Connect);
    assert!(!candidate_buttons(&model)[0].enabled);
}

#[test]
fn commands_need_an_idle_link() {
    let mut model = AppModel::default();
    assert!(!device_commands_enabled(&model));
    assert!(raw_send_enabled(&model));
    model.is_connected = true;
    assert!(device_commands_enabled(&model));
    model.active_action = Some(ActionSlot::WifiScan);
    assert!(!device_commands_enabled(&model));
    assert!(!raw_send_enabled(&model));
}

#[test]
fn empty_password_is_sent_as_none() {
    match provision_payload("Lab", "") {
        CommandPayload::WifiProvision { ssid, pwd } => {
            assert_eq!(ssid, "Lab");
            assert_eq!(pwd, None);
        }
        _ => panic!("expected a provisioning request"),
    }
    match provision_payload("Lab", "pw") {
        CommandPayload::WifiProvision { pwd, .. } => assert_eq!(pwd, Some("pw".to_string())),
        _ => panic!("expected a provisioning request"),
    }
}

#[test]
fn wifi_rows_show_access_point_counts() {
    let row = WifiDisplayRow { ssid: "Lab".to_string(), signal: -61, channels: "1, 6".to_string(), instance_count: 2 };
    assert_eq!(wifi_row_label(&row), "Lab [x2]");
    assert_eq!(wifi_row_signal(&row), "-61 dBm");
    assert!(wifi_row_selected("Lab", &row));
    assert!(!wifi_row_selected("Lab2", &row));
    let single = WifiDisplayRow { instance_count: 1, ..row };
    assert_eq!(wifi_row_label(&single), "Lab");
}

#[test]
fn result_cards_render_their_fields() {
    let card = DiagnosticResultCard { title: "System status".to_string(), ok: false, code: "E_TIMEOUT".to_string(), lines: vec![] };
    let (title, code, status) = diagnostic_result_header(&card);
    assert_eq!(title, "System status");
    assert_eq!(code, "(E_TIMEOUT)");
    assert_eq!(status, "FAIL");

    let card = ProvisionResultCard {
        ok: true,
        code: "OK".to_string(),
        status: "Connected".to_string(),
        ssid: "Lab".to_string(),
        ip: None,
        text: "done".to_string(),
    };
    assert_eq!(
        provision_result_lines(&card),
        vec!["code: OK", "status: Connected", "ssid: Lab", "ip: N/A", "text: done"]
    );
}
