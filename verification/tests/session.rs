use yundrone_ble::protocol::{AckType, CommandResponse};
use yundrone_ble::receipt::ChunkReceipt;
use yundrone_ble::response::{TransportAckReceipt, TransportAckType};
use yundrone_ble::session::{
    accept_decision, accept_wait_secs, ends_request, is_already_disconnected_error, plan_notification, AcceptDecision,
    AcceptWait, EventWaitOutcome, ReceivedEvent, StreamIdAllocator, WaitStep, REQUEST_ACCEPT_RETRIES,
};

#[test]
fn known_disconnect_errors_are_tolerated() {
    assert!(is_already_disconnected_error("Peripheral is not connected"));
    assert!(is_already_disconnected_error("already disconnected"));
    assert!(is_already_disconnected_error("peripheral disconnected by peer"));
}

#[test]
fn unrelated_errors_are_not_treated_as_disconnects() {
    assert!(!is_already_disconnected_error("permission denied"));
    assert!(!is_already_disconnected_error("write characteristic missing"));
}

#[test]
fn event_wait_outcome_progress_is_not_terminal_response() {
    assert!(!matches!(EventWaitOutcome::Progress, EventWaitOutcome::Response(_)));
}

#[test]
fn disconnect_errors_match_in_any_letter_case() {
    assert!(is_already_disconnected_error("NOT CONNECTED"));
    assert!(!is_already_disconnected_error("not  connected"));
}

#[test]
fn stream_ids_run_from_one_to_255_and_skip_zero() {
    let mut ids = StreamIdAllocator::new();
    let mut seen = Vec::new();
    for _ in 0..300 {
        seen.push(ids.next_transport_stream_id());
    }
    assert_eq!(seen[0], 1);
    assert_eq!(seen[254], 255);
    assert_eq!(seen[255], 1);
    assert!(seen.iter().all(|id| *id != 0));
}

fn event(response: Option<CommandResponse>, ack: Option<TransportAckReceipt>, progress: bool) -> ReceivedEvent {
    ReceivedEvent {
        chunk_receipt: None,
        transport_ack: ack,
        response,
        transport_progress: progress,
        assembled_from_chunks: false,
        assembled_from_transport: true,
    }
}

#[test]
fn responses_acknowledged_by_transport_need_no_event_ack() {
    let response = CommandResponse::ok("req".to_string(), "t".to_string(), None);
    let ack = TransportAckReceipt { stream_id: 3, ack_type: TransportAckType::Event, index: 0 };
    let plan = plan_notification(&event(Some(response), Some(ack), true));
    assert!(plan.event_ack.is_none());
    assert_eq!(plan.transport_ack, Some(ack));
    assert_eq!(plan.step, WaitStep::Response);
    assert!(plan.trace_assembled);
}

#[test]
fn other_responses_get_an_event_ack() {
    let mut response = CommandResponse::ok("req".to_string(), "t".to_string(), None);
    response.seq = 7;
    let plan = plan_notification(&event(Some(response), None, false));
    let ack = plan.event_ack.expect("event ack");
    assert_eq!(ack.ack_type, AckType::Event);
    assert_eq!(ack.response_seq, 7);
    assert_eq!(ack.chunk_index, None);
}

#[test]
fn progress_without_response_ends_the_wait_as_progress() {
    assert_eq!(plan_notification(&event(None, None, true)).step, WaitStep::Progress);
    assert_eq!(plan_notification(&event(None, None, false)).step, WaitStep::KeepWaiting);
}

#[test]
fn chunk_receipts_are_acknowledged() {
    let mut e = event(None, None, false);
    e.chunk_receipt = Some(ChunkReceipt { response_id: "r".to_string(), response_seq: 2, chunk_index: 3, chunk_total: 4 });
    let ack = plan_notification(&e).chunk_ack.expect("chunk ack");
    assert_eq!(ack.ack_type, AckType::Chunk);
    assert_eq!(ack.response_seq, 2);
    assert_eq!(ack.chunk_index, Some(3));
}

#[test]
fn accept_wait_is_capped_by_the_overall_timeout() {
    assert_eq!(accept_wait_secs(30), 3);
    assert_eq!(accept_wait_secs(2), 2);
}

#[test]
fn request_taken_up_by_progress_or_its_own_response() {
    assert!(matches!(accept_decision("req-1", 1, None, AcceptWait::Progress), AcceptDecision::Accepted(None)));
    let accepted = || CommandResponse::accepted("req-1".to_string(), "wifi.scan".to_string(), "ok".to_string(), None);
    match accept_decision("req-1", 2, None, AcceptWait::Response(accepted())) {
        AcceptDecision::Accepted(Some(response)) => assert_eq!(response, accepted()),
        _ => panic!("expected the request to be taken up"),
    }
}

#[test]
fn request_is_resent_until_attempts_run_out() {
    let other = || CommandResponse::ok("req-9".to_string(), "done".to_string(), None);
    match accept_decision("req-1", 1, Some("timeout".to_string()), AcceptWait::Response(other())) {
        AcceptDecision::Resend { last_error } => assert_eq!(last_error, Some("timeout".to_string())),
        _ => panic!("expected a resend"),
    }
    match accept_decision("req-1", 2, None, AcceptWait::Failed("write failed".to_string())) {
        AcceptDecision::Resend { last_error } => assert_eq!(last_error, Some("write failed".to_string())),
        _ => panic!("expected a resend"),
    }
    match accept_decision("req-1", REQUEST_ACCEPT_RETRIES, None, AcceptWait::Failed("timed out".to_string())) {
        AcceptDecision::GiveUp(error) => assert_eq!(error, "timed out"),
        _ => panic!("expected giving up"),
    }
    match accept_decision("req-1", REQUEST_ACCEPT_RETRIES, None, AcceptWait::Response(other())) {
        AcceptDecision::GiveUp(error) => assert_eq!(error, "request was not accepted"),
        _ => panic!("expected giving up"),
    }
}

#[test]
fn only_the_final_response_of_the_request_ends_it() {
    let accepted = CommandResponse::accepted("req-1".to_string(), "wifi.scan".to_string(), "ok".to_string(), None);
    let done = CommandResponse::ok("req-1".to_string(), "done".to_string(), None);
    let other = CommandResponse::ok("req-2".to_string(), "done".to_string(), None);
    assert!(!ends_request("req-1", &accepted));
    assert!(ends_request("req-1", &done));
    assert!(!ends_request("req-1", &other));
}
