use yundrone_ble::cli_requests::{build_request, deletable_profile_choices, link_ack_request, InteractiveTracePrinter};
use yundrone_ble::cli_text::{format_scan_candidate_label, is_local_cli_query, status_rows, Lang};
use yundrone_ble::protocol::{AckType, CommandPayload, LinkAckArgs, ResponsePhase, PROTOCOL_VERSION};
use yundrone_ble::responses::{
    StatusInterfaceIpv4, StatusInterfaceKind, StatusResponseData, WifiProfile, WifiProfilesResponseData,
};
use yundrone_ble::scan::ScanCandidateInfo;

#[test]
fn status_rows_include_preferred_ip_and_interfaces() {
    let rows = status_rows(&StatusResponseData {
        device_name: "yundrone-ytcwln".to_string(),
        hostname: "edge-gateway".to_string(),
        system: "Linux 6.1".to_string(),
        user: "yundrone".to_string(),
        network: Some("LabWiFi".to_string()),
        ip: Some("192.0.2.2".to_string()),
        interfaces: vec![
            StatusInterfaceIpv4 { ifname: "wlan0".to_string(), kind: StatusInterfaceKind::Wifi, ipv4: "192.0.2.2".to_string() },
            StatusInterfaceIpv4 { ifname: "eth0".to_string(), kind: StatusInterfaceKind::Ethernet, ipv4: "198.51.100.9".to_string() },
        ],
    });

    assert!(rows.contains(&("Preferred IP".to_string(), "192.0.2.2".to_string())));
    assert!(rows.contains(&("Interface".to_string(), "wlan0 [wifi] -> 192.0.2.2".to_string())));
    assert!(rows.contains(&("Interface".to_string(), "eth0 [ethernet] -> 198.51.100.9".to_string())));
}

#[test]
fn format_scan_candidate_label_shows_name_and_signal() {
    let label = format_scan_candidate_label(&ScanCandidateInfo { name: "yundrone-00a700".to_string(), rssi: Some(-41) });

    assert_eq!(label, "yundrone-00a700 (-41 dBm)");
}

#[test]
fn format_scan_candidate_label_handles_missing_signal() {
    let label = format_scan_candidate_label(&ScanCandidateInfo { name: "yundrone-000000".to_string(), rssi: None });

    assert_eq!(label, "yundrone-000000 (RSSI unknown)");
}

#[test]
fn help_and_version_do_not_need_macos_bluetooth_relaunch() {
    assert!(is_local_cli_query(&["--help".to_string()]));
    assert!(is_local_cli_query(&["debug-ble".to_string(), "--help".to_string()]));
    assert!(is_local_cli_query(&["interactive".to_string(), "--help".to_string()]));
    assert!(is_local_cli_query(&["--version".to_string()]));
    assert!(is_local_cli_query(&[]));
    assert!(!is_local_cli_query(&["debug-ble".to_string()]));
}

#[test]
fn response_phase_as_str_matches_wire_names() {
    assert_eq!(ResponsePhase::Accepted.as_str(), "accepted");
    assert_eq!(ResponsePhase::Progress.as_str(), "progress");
    assert_eq!(ResponsePhase::Result.as_str(), "result");
}

#[test]
fn build_request_populates_id_and_defaults() {
    let request = build_request(CommandPayload::SystemStatus);

    assert!(!request.id.is_empty());
    assert_eq!(request.payload, CommandPayload::SystemStatus);
    assert_eq!(request.v, PROTOCOL_VERSION);
}

#[test]
fn lang_is_english_only_for_en_in_any_case() {
    assert!(Lang::from_cli_arg("en") == Lang::En);
    assert!(Lang::from_cli_arg("EN") == Lang::En);
    assert!(Lang::from_cli_arg("zh") == Lang::Zh);
    assert!(Lang::from_cli_arg("english") == Lang::Zh);
}

#[test]
fn messages_fall_back_to_their_key() {
    assert_eq!(Lang::En.t("prompt_device"), "Select a device to connect:");
    assert_eq!(Lang::Zh.t("opt_exit"), "🚪 退出");
    assert_eq!(Lang::En.t("no_such_key"), "no_such_key");
}

#[test]
fn scan_header_names_target_and_timeout() {
    assert_eq!(
        Lang::En.scan_header("yundrone", 15),
        "🔍 Scanning for devices with prefix 'yundrone' for 15s..."
    );
}

#[test]
fn status_rows_without_interfaces_or_network() {
    let rows = status_rows(&StatusResponseData {
        device_name: "d".to_string(),
        hostname: "h".to_string(),
        system: "s".to_string(),
        user: "u".to_string(),
        network: None,
        ip: None,
        interfaces: vec![],
    });
    assert_eq!(rows.len(), 7);
    assert_eq!(rows[4], ("Network".to_string(), "Not connected".to_string()));
    assert_eq!(rows[5], ("Preferred IP".to_string(), "Unavailable".to_string()));
    assert_eq!(rows[6], ("Interfaces".to_string(), "none".to_string()));
}

#[test]
fn only_inactive_profiles_are_offered_for_deletion() {
    let profile = |uuid: &str, ssid: &str, active: bool| WifiProfile {
        uuid: uuid.to_string(),
        name: ssid.to_string(),
        ssid: ssid.to_string(),
        active,
        device: None,
        autoconnect: true,
    };
    let choices = deletable_profile_choices(&WifiProfilesResponseData {
        profiles: vec![profile("u1", "Lab", true), profile("u2", "Old", false)],
    });
    assert_eq!(choices.len(), 1);
    assert_eq!(choices[0].uuid, "u2");
    assert_eq!(choices[0].label, "Old (u2)");
}

#[test]
fn link_ack_requests_carry_the_acknowledged_sequence() {
    let request = link_ack_request("req-9", AckType::Chunk, 4, Some(2));
    assert_eq!(request.id, "req-9");
    assert_eq!(
        request.payload,
        CommandPayload::LinkAck(LinkAckArgs { ack_type: AckType::Chunk, response_seq: 4, chunk_index: Some(2) })
    );
}

#[test]
fn trace_printer_hides_secrets_unless_raw() {
    assert!(InteractiveTracePrinter::new(false).options().redact_secrets);
    assert!(!InteractiveTracePrinter::new(true).options().redact_secrets);
}
