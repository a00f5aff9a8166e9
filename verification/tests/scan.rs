use yundrone_ble::discovery::{classify_properties, raw_identity_scan_filter, DiscoveryCriteria};
use yundrone_ble::scan::{progress_event, sort_scan_candidates, LiveScanState, ScanCandidateInfo, ScanProgressEvent};

#[test]
fn sort_scan_candidates_orders_devices_by_signal_then_name() {
    let mut candidates = vec![
        ScanCandidateInfo { name: "yundrone-00d8ab".to_string(), rssi: Some(-60) },
        ScanCandidateInfo { name: "Other_Device".to_string(), rssi: Some(-20) },
        ScanCandidateInfo { name: "yundrone-00b110".to_string(), rssi: Some(-45) },
    ];

    sort_scan_candidates(&mut candidates);

    assert_eq!(candidates[0].name, "Other_Device");
    assert_eq!(candidates[1].name, "yundrone-00b110");
    assert_eq!(candidates[2].name, "yundrone-00d8ab");
}

#[test]
fn sort_scan_candidates_puts_unknown_rssi_last() {
    let mut candidates = vec![
        ScanCandidateInfo { name: "yundrone-000000".to_string(), rssi: None },
        ScanCandidateInfo { name: "yundrone-00b110".to_string(), rssi: Some(-45) },
    ];

    sort_scan_candidates(&mut candidates);

    assert_eq!(candidates[0].name, "yundrone-00b110");
    assert_eq!(candidates[1].name, "yundrone-000000");
}

#[test]
fn progress_event_captures_name_signal_and_prefix_match() {
    assert_eq!(
        progress_event("yundrone-00a700".to_string(), Some(-41), true),
        ScanProgressEvent { device_name: "yundrone-00a700".to_string(), rssi: Some(-41), matches_prefix: true }
    );
}

#[test]
fn raw_identity_scan_filter_does_not_hide_non_matching_devices() {
    let filter = raw_identity_scan_filter();

    assert!(
        filter.services.is_empty(),
        "scan progress should see all named BLE identities; candidates are filtered later"
    );
}

#[test]
fn observe_counts_named_and_matched_devices_once() {
    let mut state = LiveScanState::new();

    let first = state.observe("dev-1".to_string(), "YD-A3FB", Some("YD-A3FB".to_string()), true, Some(-11));
    let second = state.observe("dev-1".to_string(), "YD-A3FB", Some("YD-A3FB".to_string()), true, Some(-10));

    assert!(first.progress.is_some());
    assert!(first.candidate_name.is_some());
    assert!(second.progress.is_none());
    assert!(second.candidate_name.is_none());
    assert_eq!(state.named_device_count, 1);
    assert_eq!(state.candidate_count, 1);
}

#[test]
fn sorting_keeps_every_candidate() {
    let mut candidates = vec![
        ScanCandidateInfo { name: "b".to_string(), rssi: Some(-50) },
        ScanCandidateInfo { name: "a".to_string(), rssi: Some(-50) },
        ScanCandidateInfo { name: "c".to_string(), rssi: None },
        ScanCandidateInfo { name: "a".to_string(), rssi: Some(-50) },
    ];
    sort_scan_candidates(&mut candidates);
    let names: Vec<&str> = candidates.iter().map(|c| c.name.as_str()).collect();
    assert_eq!(names, vec!["a", "a", "b", "c"]);
}

#[test]
fn scan_step_skips_unnamed_and_counts_distinct_devices() {
    let criteria = DiscoveryCriteria::for_prefix("yundrone");
    let mut state = LiveScanState::new();
    assert!(state.scan_step("dev-0".to_string(), None, &criteria, None).is_none());
    let a = state.scan_step("dev-1".to_string(), Some("yundrone-ab12"), &criteria, Some(-40)).unwrap();
    let b = state.scan_step("dev-2".to_string(), Some("Phone"), &criteria, None).unwrap();
    let c = state.scan_step("dev-1".to_string(), Some("yundrone-ab12"), &criteria, Some(-39)).unwrap();
    assert_eq!(a.candidate_name.as_deref(), Some("yundrone-ab12"));
    assert!(a.progress.is_some());
    assert!(b.candidate_name.is_none() && !b.matches_identity);
    assert!(c.progress.is_none() && c.candidate_name.is_none());
    let summary = state.summary(false);
    assert_eq!(summary.named_device_count, 2);
    assert_eq!(summary.candidate_count, 1);
    assert!(!summary.cancelled);
}

#[test]
fn matches_configured_prefix_when_uart_service_is_present() {
    
    let criteria = DiscoveryCriteria::for_prefix("yundrone");
    let local_name = Some("yundrone-12abcd");

    let matched = classify_properties(local_name, &criteria).unwrap();

    assert!(matched.matches_identity);
    assert_eq!(matched.candidate_name.as_deref(), Some("yundrone-12abcd"));
}

#[test]
fn matches_bracketed_full_name_when_uart_service_is_present() {
    
    let criteria = DiscoveryCriteria::for_prefix("yundrone");
    let local_name = Some("edge-gateway [yundrone-12abcd]");

    let matched = classify_properties(local_name, &criteria).unwrap();

    assert!(matched.matches_identity);
    assert_eq!(matched.candidate_name.as_deref(), Some("yundrone-12abcd"));
}

#[test]
fn accepts_null_diagnostic_identity() {
    
    let criteria = DiscoveryCriteria::for_prefix("yundrone");
    let local_name = Some("yundrone-null");

    let matched = classify_properties(local_name, &criteria).unwrap();

    assert!(matched.matches_identity);
    assert_eq!(matched.candidate_name.as_deref(), Some("yundrone-null"));
}

#[test]
fn accepts_configured_prefix_without_uart_service() {
    
    let criteria = DiscoveryCriteria::for_prefix("yundrone");
    let local_name = Some("yundrone-ytcwln");

    let matched = classify_properties(local_name, &criteria).unwrap();

    assert!(matched.matches_identity);
    assert_eq!(matched.candidate_name.as_deref(), Some("yundrone-ytcwln"));
}

#[test]
fn accepts_unseparated_alias_random_suffix() {
    
    let criteria = DiscoveryCriteria::for_prefix("yundrone");
    let local_name = Some("yundrone-lab1k9x8");

    let matched = classify_properties(local_name, &criteria).unwrap();

    assert!(matched.matches_identity);
    assert_eq!(matched.candidate_name.as_deref(), Some("yundrone-lab1k9x8"));
}

#[test]
fn accepts_bracketed_full_name_without_uart_service() {
    
    let criteria = DiscoveryCriteria::for_prefix("yundrone");
    let local_name = Some("edge-gateway [yundrone-ytcwln]");

    let matched = classify_properties(local_name, &criteria).unwrap();

    assert!(matched.matches_identity);
    assert_eq!(matched.candidate_name.as_deref(), Some("yundrone-ytcwln"));
}

#[test]
fn rejects_stale_time_based_identity_from_cache() {
    
    let criteria = DiscoveryCriteria::for_prefix("yundrone");
    let local_name = Some("edge-gateway [yundrone-07-44-5433]");

    let matched = classify_properties(local_name, &criteria).unwrap();

    assert!(!matched.matches_identity);
    assert!(matched.candidate_name.is_none());
}

#[test]
fn rejects_invalid_suffixes() {
    let criteria = DiscoveryCriteria::for_prefix("yundrone");

    for name in [
        "Yundrone-lab1-k9x8",
        "yundrone-",
        "yundrone-lab_1",
        "yundrone-lab1--k9x8",
        "yundrone-07-44-5433",
        "yundrone-YTCWLN",
    ] {
        
        let local_name = Some(name);

        let matched = classify_properties(local_name, &criteria).unwrap();

        assert!(!matched.matches_identity, "{name}");
        assert!(matched.candidate_name.is_none(), "{name}");
    }
}

#[test]
fn rejects_uart_service_without_configured_prefix() {
    
    let criteria = DiscoveryCriteria::for_prefix("yundrone");
    let local_name = Some("Gateway");

    let matched = classify_properties(local_name, &criteria).unwrap();

    assert!(!matched.matches_identity);
    assert!(matched.candidate_name.is_none());
}

#[test]
fn rejects_legacy_yundrone_uav_name() {
    
    let criteria = DiscoveryCriteria::for_prefix("yundrone");
    let local_name = Some("Yundrone_UAV-03-17-5433");

    let matched = classify_properties(local_name, &criteria).unwrap();

    assert!(!matched.matches_identity);
    assert!(matched.candidate_name.is_none());
}

#[test]
fn rejects_legacy_short_name() {
    
    let criteria = DiscoveryCriteria::for_prefix("yundrone");
    let local_name = Some("YD-A3FB");

    let matched = classify_properties(local_name, &criteria).unwrap();

    assert!(!matched.matches_identity);
    assert!(matched.candidate_name.is_none());
}

#[test]
fn keeps_non_matching_named_devices_for_raw_scan_logs() {
    
    let criteria = DiscoveryCriteria::for_prefix("yundrone");
    let local_name = Some("GrooveiPhone");

    let matched = classify_properties(local_name, &criteria).unwrap();

    assert_eq!(matched.display_name, "GrooveiPhone");
    assert!(!matched.matches_identity);
    assert!(matched.candidate_name.is_none());
}

#[test]
fn ignores_unnamed_devices() {
    
    let criteria = DiscoveryCriteria::for_prefix("yundrone");

    assert!(classify_properties(None, &criteria).is_none());
}

#[test]
fn sort_scan_candidates_keeps_the_order_of_candidates_that_rank_the_same() {
    let unknown = ScanCandidateInfo { name: "Yundrone_UAV".to_string(), rssi: None };
    let weakest = ScanCandidateInfo { name: "Yundrone_UAV".to_string(), rssi: Some(i16::MIN) };

    let mut candidates = vec![unknown.clone(), weakest.clone()];
    sort_scan_candidates(&mut candidates);
    assert_eq!(candidates, vec![unknown.clone(), weakest.clone()]);

    let mut candidates = vec![weakest.clone(), unknown.clone()];
    sort_scan_candidates(&mut candidates);
    assert_eq!(candidates, vec![weakest, unknown]);
}

#[test]
fn scan_step_reports_the_bracketed_candidate_name_and_the_raw_name_in_progress() {
    let criteria = DiscoveryCriteria::for_prefix("yundrone");
    let mut state = LiveScanState::new();
    let o = state.scan_step("dev-9".to_string(), Some("edge-gateway [yundrone-12abcd]"), &criteria, Some(-52)).unwrap();
    assert_eq!(o.candidate_name.as_deref(), Some("yundrone-12abcd"));
    assert_eq!(
        o.progress,
        Some(ScanProgressEvent { device_name: "edge-gateway [yundrone-12abcd]".to_string(), rssi: Some(-52), matches_prefix: true })
    );
    assert!(o.matches_identity);
}
