use vstd::prelude::*;

use crate::gui_model::{ActionSlot, DisconnectReason, UiEvent};
use crate::protocol::CommandPayload;
use crate::scan::{ScanCandidateInfo, ScanProgressEvent, ScanRunSummary};
use crate::text::text;
use crate::worker_events::{
    connect_selected_log, connect_started_log, handshake_completed_log, heartbeat_disconnected_line,
    heartbeat_disconnected_log, raw_payload_log, scan_completed_detail, scan_completed_log,
    scan_progress_line, scan_progress_log, scan_started_log, scan_stopped_log,
};
use crate::worker_flow::{action_failure_events, is_error, is_failure, DisconnectOutcome};
use crate::worker_state::{
    after_heartbeat_failure, first_named, has_name, heartbeat_cleared, idle, WorkerState,
    WorkerView, HEARTBEAT_DISCONNECT_GRACE_MS, HEARTBEAT_FAILURE_THRESHOLD,
};
use crate::discovery::trimmed;
use crate::text::decimal;

verus! {

/// What a running scan reports back to the worker, tagged with the scan it belongs to.
pub enum ScanWorkerEvent {
    Progress { scan_id: u64, event: ScanProgressEvent },
    Candidate { scan_id: u64, device: ScanCandidateInfo },
    Finished { scan_id: u64, summary: ScanRunSummary },
    Failed { scan_id: u64, error: String },
}

impl ScanWorkerEvent {
    pub open spec fn scan_of(self) -> u64 {
        match self {
            ScanWorkerEvent::Progress { scan_id, .. } => scan_id,
            ScanWorkerEvent::Candidate { scan_id, .. } => scan_id,
            ScanWorkerEvent::Finished { scan_id, .. } => scan_id,
            ScanWorkerEvent::Failed { scan_id, .. } => scan_id,
        }
    }
}

/// The error of a scan that ended without a candidate.
pub open spec fn nothing_found_error() -> Seq<char> {
    "Device not found after scan window elapsed"@
}

/// `v` once the current scan, if any, is cancelled.
pub open spec fn scan_cancelled(v: WorkerView) -> WorkerView {
    if v.has_cancel {
        WorkerView { active_scan_id: None, has_cancel: false, ..v }
    } else {
        v
    }
}

/// `a`, `b` report a scan stopped by the operator.
pub open spec fn is_scan_stopped_pair(a: UiEvent, b: UiEvent) -> bool {
    &&& a is ScanStopped
    &&& b matches UiEvent::ActionSucceeded { slot: s, request_id: None, detail: Some(d) }
    &&& s == ActionSlot::DeviceScan
    &&& d@ == "stopped"@
}

/// `e` is a log line with `line`.
pub open spec fn is_log(e: UiEvent, line: Seq<char>) -> bool {
    e matches UiEvent::Log(l) && l@ == line
}

/// `e` starts `slot` without a request identifier.
pub open spec fn is_start(e: UiEvent, slot: ActionSlot) -> bool {
    e matches UiEvent::ActionStarted { slot: s, request_id: None } && s == slot
}

fn copy_info(device: &ScanCandidateInfo) -> (r: ScanCandidateInfo)
    ensures
        r.name@ == device.name@,
        r.rssi == device.rssi,
{
    ScanCandidateInfo { name: text(device.name.as_str()), rssi: device.rssi }
}

/// Cancels the current scan, if any, and reports it stopped.
fn cancel_current_scan(state: &mut WorkerState) -> (r: Vec<UiEvent>)
    ensures
        final(state)@ == scan_cancelled(old(state)@),
        r@.len() == if old(state)@.has_cancel { 2int } else { 0int },
        old(state)@.has_cancel ==> is_scan_stopped_pair(r@[0], r@[1]),
{
    let mut events: Vec<UiEvent> = Vec::new();
    if state.cancel_scan() {
        events.push(UiEvent::ScanStopped);
        events.push(
            UiEvent::ActionSucceeded {
                slot: ActionSlot::DeviceScan,
                request_id: None,
                detail: Some(text("stopped")),
            },
        );
    }
    events
}

/// The operator asks for a scan for devices named with `prefix`: a scan still running is
/// cancelled and reported stopped, then the new scan is reported started and logged.
pub fn scan_requested_events(state: &mut WorkerState, prefix: &str) -> (r: Vec<UiEvent>)
    ensures
        final(state)@ == scan_cancelled(old(state)@),
        ({
            let k = if old(state)@.has_cancel { 2int } else { 0int };
            &&& r@.len() == k + 3
            &&& old(state)@.has_cancel ==> is_scan_stopped_pair(r@[0], r@[1])
            &&& is_start(r@[k], ActionSlot::DeviceScan)
            &&& r@[k + 1] is ScanStarted
            &&& is_log(r@[k + 2], "[SYS] Scanning for '"@ + prefix@ + "'..."@)
        }),
{
    let mut events = cancel_current_scan(state);
    events.push(UiEvent::ActionStarted { slot: ActionSlot::DeviceScan, request_id: None });
    events.push(UiEvent::ScanStarted);
    events.push(UiEvent::Log(scan_started_log(prefix)));
    events
}

/// The operator stops scanning: a running scan is cancelled, reported stopped and logged;
/// with none running nothing happens.
pub fn stop_scan_events(state: &mut WorkerState) -> (r: Vec<UiEvent>)
    ensures
        final(state)@ == scan_cancelled(old(state)@),
        r@.len() == if old(state)@.has_cancel { 3int } else { 0int },
        old(state)@.has_cancel ==> is_scan_stopped_pair(r@[0], r@[1]) && is_log(
            r@[2],
            "[SYS] Scan stopped by user."@,
        ),
{
    let mut events = cancel_current_scan(state);
    if events.len() > 0 {
        events.push(UiEvent::Log(scan_stopped_log()));
    }
    events
}

/// The operator picks the candidate `name`: a running scan is cancelled, reported stopped
/// and the pick logged; the connection itself follows.
pub fn connect_requested_events(state: &mut WorkerState, name: &str) -> (r: Vec<UiEvent>)
    ensures
        final(state)@ == scan_cancelled(old(state)@),
        r@.len() == if old(state)@.has_cancel { 3int } else { 0int },
        old(state)@.has_cancel ==> is_scan_stopped_pair(r@[0], r@[1]) && is_log(
            r@[2],
            "[SYS] Candidate selected, stopping scan and connecting to "@ + name@ + "..."@,
        ),
{
    let mut events = cancel_current_scan(state);
    if events.len() > 0 {
        events.push(UiEvent::Log(connect_selected_log(name)));
    }
    events
}

/// What a running scan reported, applied to the worker: reports of a scan that is no
/// longer the current one are dropped. A progress report is logged, a candidate recorded
/// (once per name) and shown, and the end of the scan reported: as a failure when it
/// found no candidate.
pub fn apply_scan_event(state: &mut WorkerState, event: ScanWorkerEvent) -> (r: Vec<UiEvent>)
    ensures
        old(state)@.active_scan_id != Some(event.scan_of()) ==> r@.len() == 0 && final(state)@
            == old(state)@,
        old(state)@.active_scan_id == Some(event.scan_of()) ==> match event {
            ScanWorkerEvent::Progress { event: p, .. } => final(state)@ == old(state)@ && r@.len()
                == 1 && is_log(r@[0], scan_progress_line(p)),
            ScanWorkerEvent::Candidate { device, .. } => {
                &&& final(state)@ == (WorkerView {
                    discovered: if has_name(old(state)@.discovered, device.name@) {
                        old(state)@.discovered
                    } else {
                        old(state)@.discovered.push(device)
                    },
                    ..old(state)@
                })
                &&& r@.len() == 1
                &&& r@[0] matches UiEvent::ScanCandidateDiscovered(info) && info.name@
                    == device.name@ && info.rssi == device.rssi
            },
            ScanWorkerEvent::Finished { summary, .. } => {
                &&& final(state)@ == (WorkerView {
                    active_scan_id: None,
                    has_cancel: false,
                    ..old(state)@
                })
                &&& if summary.candidate_count == 0 {
                    r@.len() == 2 && is_failure(r@[0], ActionSlot::DeviceScan, None, nothing_found_error())
                        && is_error(r@[1], nothing_found_error())
                } else {
                    &&& r@.len() == 3
                    &&& r@[0] matches UiEvent::ActionSucceeded { slot: s, request_id: None, detail: Some(d) }
                        && s == ActionSlot::DeviceScan && d@ == decimal(summary.candidate_count as nat)
                    &&& is_log(r@[1], "[SYS] Found "@ + decimal(summary.named_device_count as nat)
                        + " named device(s); "@ + decimal(summary.candidate_count as nat)
                        + " candidate device(s) match the prefix."@)
                    &&& r@[2] is ScanFinished
                }
            },
            ScanWorkerEvent::Failed { error, .. } => {
                &&& final(state)@ == (WorkerView {
                    active_scan_id: None,
                    has_cancel: false,
                    ..old(state)@
                })
                &&& r@.len() == 2
                &&& is_failure(r@[0], ActionSlot::DeviceScan, None, error@)
                &&& is_error(r@[1], error@)
            },
        },
{
    proof {
        reveal_strlit("");
        reveal_strlit("Device not found after scan window elapsed");
    }
    let mut events: Vec<UiEvent> = Vec::new();
    match event {
        ScanWorkerEvent::Progress { scan_id, event } => {
            if state.is_active_scan(scan_id) {
                events.push(UiEvent::Log(scan_progress_log(&event)));
            }
        },
        ScanWorkerEvent::Candidate { scan_id, device } => {
            if state.is_active_scan(scan_id) {
                let shown = copy_info(&device);
                state.add_discovered_device(device);
                events.push(UiEvent::ScanCandidateDiscovered(shown));
            }
        },
        ScanWorkerEvent::Finished { scan_id, summary } => {
            if state.finish_scan(scan_id) {
                if summary.candidate_count == 0 {
                    assert(""@ + nothing_found_error() =~= nothing_found_error());
                    return action_failure_events(
                        ActionSlot::DeviceScan,
                        None,
                        "",
                        "Device not found after scan window elapsed",
                    );
                }
                events.push(
                    UiEvent::ActionSucceeded {
                        slot: ActionSlot::DeviceScan,
                        request_id: None,
                        detail: scan_completed_detail(summary.candidate_count),
                    },
                );
                events.push(
                    UiEvent::Log(
                        scan_completed_log(summary.named_device_count, summary.candidate_count),
                    ),
                );
                events.push(UiEvent::ScanFinished);
            }
        },
        ScanWorkerEvent::Failed { scan_id, error } => {
            if state.finish_scan(scan_id) {
                assert(""@ + error@ =~= error@);
                return action_failure_events(ActionSlot::DeviceScan, None, "", error.as_str());
            }
        },
    }
    events
}

/// The operator's pick of `name` is taken up: the connection starts, and the scanned device
/// is looked up. Without a scanner, or with no device of that name, the connection fails
/// with the lookup's error; otherwise it is reported under way, and the position of the
/// device among the scanned ones is returned for the caller to connect to.
pub fn connect_begin_events(state: &mut WorkerState, name: &str) -> (r: (Vec<UiEvent>, Option<usize>))
    ensures
        r.0@.len() == 3,
        is_start(r.0@[0], ActionSlot::Connect),
        !old(state)@.has_client ==> final(state)@ == old(state)@ && r.1 is None && is_failure(
            r.0@[1],
            ActionSlot::Connect,
            None,
            "No scanned devices available"@,
        ) && is_error(r.0@[2], "No scanned devices available"@),
        old(state)@.has_client ==> final(state)@ == (WorkerView { has_client: false, ..old(state)@ }),
        old(state)@.has_client && !has_name(old(state)@.discovered, name@) ==> r.1 is None && ({
            let e = "Scanned device '"@ + name@ + "' is no longer available"@;
            is_failure(r.0@[1], ActionSlot::Connect, None, e) && is_error(r.0@[2], e)
        }),
        old(state)@.has_client && has_name(old(state)@.discovered, name@) ==> ({
            &&& r.1 matches Some(k) && first_named(old(state)@.discovered, name@, k as int)
            &&& r.0@[1] matches UiEvent::ConnectingToCandidate(n) && n@ == name@
            &&& is_log(r.0@[2], "[SYS] Connecting to "@ + name@ + "..."@)
        }),
{
    proof {
        reveal_strlit("");
    }
    let mut events: Vec<UiEvent> = Vec::new();
    events.push(UiEvent::ActionStarted { slot: ActionSlot::Connect, request_id: None });
    match state.take_connection_target(name) {
        Ok(k) => {
            events.push(UiEvent::ConnectingToCandidate(text(name)));
            events.push(UiEvent::Log(connect_started_log(name)));
            (events, Some(k))
        },
        Err(e) => {
            assert(""@ + e@ =~= e@);
            let mut tail = action_failure_events(ActionSlot::Connect, None, "", e.as_str());
            let second = tail.pop().unwrap();
            let first = tail.pop().unwrap();
            events.push(first);
            events.push(second);
            (events, None)
        },
    }
}

/// The connection to the picked candidate `name` came up, under the peripheral's own name,
/// or failed with `Err`. Up: the session is active and the scan done with, and the pick,
/// the success and the handshake are reported. Failed: the worker is idle again and the
/// failure reported.
pub fn connect_finished_events(state: &mut WorkerState, name: &str, result: Result<String, String>) -> (r: Vec<UiEvent>)
    ensures
        match result {
            Ok(connected) => {
                &&& final(state)@ == heartbeat_cleared(WorkerView {
                    has_session: true,
                    has_client: false,
                    discovered: Seq::empty(),
                    active_scan_id: None,
                    has_cancel: false,
                    ..old(state)@
                })
                &&& r@.len() == 3
                &&& r@[0] matches UiEvent::ConnectedDeviceSelected(n) && n@ == name@
                &&& r@[1] matches UiEvent::ActionSucceeded { slot: s, request_id: None, detail: Some(d) }
                    && s == ActionSlot::Connect && d@ == connected@
                &&& is_log(r@[2], "[SYS] Handshake complete. MTU synced."@)
            },
            Err(e) => {
                &&& final(state)@ == idle(old(state)@)
                &&& r@.len() == 2
                &&& is_failure(r@[0], ActionSlot::Connect, None, "Connect failed: "@ + e@)
                &&& r@[1] matches UiEvent::ConnectionFailed(m) && m@ == "Connect failed: "@ + e@
            },
        },
{
    let mut events: Vec<UiEvent> = Vec::new();
    match result {
        Ok(connected) => {
            state.activate_session();
            events.push(UiEvent::ConnectedDeviceSelected(text(name)));
            events.push(
                UiEvent::ActionSucceeded {
                    slot: ActionSlot::Connect,
                    request_id: None,
                    detail: Some(connected),
                },
            );
            events.push(UiEvent::Log(handshake_completed_log()));
        },
        Err(e) => {
            state.reset_to_idle();
            let mut message = text("Connect failed: ");
            message.append(e.as_str());
            let copy = text(message.as_str());
            events.push(
                UiEvent::ActionFailed { slot: ActionSlot::Connect, request_id: None, error: message },
            );
            events.push(UiEvent::ConnectionFailed(copy));
        },
    }
    events
}

/// An action that needs the link, asked for while none is up.
pub fn not_connected_events(slot: ActionSlot) -> (r: Vec<UiEvent>)
    ensures
        r@.len() == 2,
        is_failure(r@[0], slot, None, "Not connected"@),
        is_error(r@[1], "Not connected"@),
{
    proof {
        reveal_strlit("");
        reveal_strlit("Not connected");
    }
    assert(""@ + "Not connected"@ =~= "Not connected"@);
    action_failure_events(slot, None, "", "Not connected")
}

/// The operator sends a raw payload for `slot`: without a link the action fails; with one
/// it starts and the trimmed payload is logged, and the caller writes it.
pub fn raw_send_begin_events(state: &WorkerState, slot: ActionSlot, payload: &str) -> (r: Vec<UiEvent>)
    ensures
        !state@.has_session ==> r@.len() == 2 && is_failure(r@[0], slot, None, "Not connected"@)
            && is_error(r@[1], "Not connected"@),
        state@.has_session ==> r@.len() == 2 && is_start(r@[0], slot) && is_log(
            r@[1],
            ">> TX RAW: "@ + trimmed(payload@),
        ),
{
    if !state.has_active_session() {
        return not_connected_events(slot);
    }
    let mut events: Vec<UiEvent> = Vec::new();
    events.push(UiEvent::ActionStarted { slot, request_id: None });
    events.push(UiEvent::Log(raw_payload_log(payload)));
    events
}

/// How writing a raw payload for `slot` ended.
pub fn raw_send_finished_events(slot: ActionSlot, result: Result<(), String>) -> (r: Vec<UiEvent>)
    ensures
        match result {
            Ok(()) => r@.len() == 1 && (r@[0] matches UiEvent::ActionSucceeded {
                slot: s,
                request_id: None,
                detail: Some(d),
            } && s == slot && d@ == "written"@),
            Err(e) => r@.len() == 2 && is_failure(r@[0], slot, None, "Write fail: "@ + e@)
                && is_error(r@[1], "Write fail: "@ + e@),
        },
{
    match result {
        Ok(()) => {
            let mut events: Vec<UiEvent> = Vec::new();
            events.push(
                UiEvent::ActionSucceeded { slot, request_id: None, detail: Some(text("written")) },
            );
            events
        },
        Err(e) => action_failure_events(slot, None, "Write fail: ", e.as_str()),
    }
}

/// What the worker does when the heartbeat timer fires.
pub enum HeartbeatStep {
    /// No link: nothing to probe.
    Skip,
    /// Send a heartbeat and wait for its answer.
    Probe,
    /// Drop the link after this many missed heartbeats.
    Drop { failures: u8, grace_elapsed: bool },
}

/// The heartbeat timer fired at `now`: once the grace window after the first miss is over
/// the link is dropped, counting at least one miss; otherwise a link is probed.
pub fn heartbeat_tick(state: &WorkerState, now: u64) -> (r: HeartbeatStep)
    ensures
        (state@.heartbeat_disconnect_deadline matches Some(d) && now >= d) ==> (r matches HeartbeatStep::Drop {
            failures,
            grace_elapsed,
        } && grace_elapsed && failures == if state@.heartbeat_failures == 0 {
            1
        } else {
            state@.heartbeat_failures
        }),
        !(state@.heartbeat_disconnect_deadline matches Some(d) && now >= d) ==> if state@.has_session {
            r is Probe
        } else {
            r is Skip
        },
{
    if state.heartbeat_deadline_elapsed(now) {
        let failures = state.heartbeat_failures();
        return HeartbeatStep::Drop {
            failures: if failures == 0 { 1 } else { failures },
            grace_elapsed: true,
        };
    }
    if state.has_active_session() {
        HeartbeatStep::Probe
    } else {
        HeartbeatStep::Skip
    }
}

/// The answer to a heartbeat, at `now`: the time of a good answer, or the reason it failed.
/// A good answer clears the failures and is reported; a failure is counted and reported,
/// and when enough failures are in a row the link is to be dropped (the count is returned).
pub fn heartbeat_result_events(state: &mut WorkerState, now: u64, result: Result<String, String>) -> (r: (Vec<UiEvent>, Option<u8>))
    requires
        now <= u64::MAX - HEARTBEAT_DISCONNECT_GRACE_MS,
    ensures
        match result {
            Ok(at) => final(state)@ == heartbeat_cleared(old(state)@) && r.0@.len() == 1 && (
            r.0@[0] matches UiEvent::HeartbeatOk { at: a } && a@ == at@) && r.1 is None,
            Err(_) => {
                let f = after_heartbeat_failure(old(state)@, now).heartbeat_failures;
                &&& final(state)@ == after_heartbeat_failure(old(state)@, now)
                &&& r.0@.len() == 1
                &&& r.0@[0] == UiEvent::HeartbeatMissed(f)
                &&& r.1 == if f >= HEARTBEAT_FAILURE_THRESHOLD { Some(f) } else { None::<u8> }
            },
        },
{
    let mut events: Vec<UiEvent> = Vec::new();
    match result {
        Ok(at) => {
            state.reset_heartbeat_failures();
            events.push(UiEvent::HeartbeatOk { at });
            (events, None)
        },
        Err(_) => {
            let failures = state.record_heartbeat_failure(now);
            events.push(UiEvent::HeartbeatMissed(failures));
            if state.heartbeat_failure_threshold_reached() {
                (events, Some(failures))
            } else {
                (events, None)
            }
        },
    }
}

/// The link is dropped after missed heartbeats. `outcome` is how disconnecting the session
/// ended, or `None` when there was no session to disconnect; `device_name` is the session's
/// device, `"device"` when unknown. The worker is idle afterwards; with a session the drop
/// is logged before the link is reported down, and a failed disconnect is reported last.
pub fn heartbeat_drop_events(
    state: &mut WorkerState,
    device_name: Option<&str>,
    failures: u8,
    grace_elapsed: bool,
    outcome: Option<DisconnectOutcome>,
) -> (r: Vec<UiEvent>)
    ensures
        final(state)@ == idle(old(state)@),
        match outcome {
            None => r@.len() == 1 && r@[0] == (UiEvent::Disconnected {
                reason: DisconnectReason::HeartbeatFailed,
            }),
            Some(o) => {
                let name = match device_name {
                    Some(n) => n@,
                    None => "device"@,
                };
                &&& r@.len() >= 2
                &&& is_log(r@[0], heartbeat_disconnected_line(name, failures, grace_elapsed))
                &&& r@[1] == (UiEvent::Disconnected { reason: DisconnectReason::HeartbeatFailed })
                &&& match o {
                    DisconnectOutcome::Done => r@.len() == 2,
                    DisconnectOutcome::Failed(e) => r@.len() == 3 && is_error(
                        r@[2],
                        "Disconnect fail: "@ + e@,
                    ),
                    DisconnectOutcome::TimedOut => r@.len() == 3 && is_error(
                        r@[2],
                        "Disconnect fail: timed out after 2s"@,
                    ),
                }
            },
        },
{
    state.reset_to_idle();
    let mut events: Vec<UiEvent> = Vec::new();
    match outcome {
        None => {
            events.push(UiEvent::Disconnected { reason: DisconnectReason::HeartbeatFailed });
        },
        Some(o) => {
            let name = match device_name {
                Some(n) => n,
                None => "device",
            };
            proof {
                reveal_strlit("device");
            }
            events.push(UiEvent::Log(heartbeat_disconnected_log(name, failures, grace_elapsed)));
            events.push(UiEvent::Disconnected { reason: DisconnectReason::HeartbeatFailed });
            match o {
                DisconnectOutcome::Done => {},
                DisconnectOutcome::Failed(e) => {
                    let mut message = text("Disconnect fail: ");
                    message.append(e.as_str());
                    events.push(UiEvent::Error(message));
                },
                DisconnectOutcome::TimedOut => {
                    events.push(UiEvent::Error(text("Disconnect fail: timed out after 2s")));
                },
            }
        },
    }
    events
}

/// From a clean record, the third heartbeat missed in a row, and not an earlier one,
/// reaches the threshold that drops the link.
pub proof fn lemma_third_miss_drops_link(v: WorkerView, t1: u64, t2: u64, t3: u64)
    requires
        v.heartbeat_failures == 0,
    ensures
        after_heartbeat_failure(v, t1).heartbeat_failures < HEARTBEAT_FAILURE_THRESHOLD,
        after_heartbeat_failure(after_heartbeat_failure(v, t1), t2).heartbeat_failures
            < HEARTBEAT_FAILURE_THRESHOLD,
        after_heartbeat_failure(
            after_heartbeat_failure(after_heartbeat_failure(v, t1), t2),
            t3,
        ).heartbeat_failures >= HEARTBEAT_FAILURE_THRESHOLD,
{
}

/// What the interface asks of the Bluetooth worker.
pub enum BtleCommand {
    ScanCandidates { prefix: String, timeout_secs: u64 },
    StopScan,
    ConnectToCandidate { name: String },
    Disconnect,
    SendCommand { slot: ActionSlot, payload: CommandPayload },
    SendRaw { slot: ActionSlot, payload: String },
}

/// What the worker reports as soon as a command arrives, before any Bluetooth work: a scan
/// request, a stop and a pick of a candidate deal with the running scan first; the other
/// commands report only as their work goes.
pub fn command_received_events(state: &mut WorkerState, command: &BtleCommand) -> (r: Vec<UiEvent>)
    ensures
        match command {
            BtleCommand::ScanCandidates { prefix, .. } => {
                let k = if old(state)@.has_cancel { 2int } else { 0int };
                &&& final(state)@ == scan_cancelled(old(state)@)
                &&& r@.len() == k + 3
                &&& old(state)@.has_cancel ==> is_scan_stopped_pair(r@[0], r@[1])
                &&& is_start(r@[k], ActionSlot::DeviceScan)
                &&& r@[k + 1] is ScanStarted
                &&& is_log(r@[k + 2], "[SYS] Scanning for '"@ + prefix@ + "'..."@)
            },
            BtleCommand::StopScan => {
                &&& final(state)@ == scan_cancelled(old(state)@)
                &&& r@.len() == if old(state)@.has_cancel { 3int } else { 0int }
                &&& old(state)@.has_cancel ==> is_scan_stopped_pair(r@[0], r@[1]) && is_log(
                    r@[2],
                    "[SYS] Scan stopped by user."@,
                )
            },
            BtleCommand::ConnectToCandidate { name } => {
                &&& final(state)@ == scan_cancelled(old(state)@)
                &&& r@.len() == if old(state)@.has_cancel { 3int } else { 0int }
                &&& old(state)@.has_cancel ==> is_scan_stopped_pair(r@[0], r@[1]) && is_log(
                    r@[2],
                    "[SYS] Candidate selected, stopping scan and connecting to "@ + name@ + "..."@,
                )
            },
            _ => final(state)@ == old(state)@ && r@.len() == 0,
        },
{
    match command {
        BtleCommand::ScanCandidates { prefix, .. } => scan_requested_events(state, prefix.as_str()),
        BtleCommand::StopScan => stop_scan_events(state),
        BtleCommand::ConnectToCandidate { name } => connect_requested_events(state, name.as_str()),
        _ => Vec::new(),
    }
}

} // verus!
