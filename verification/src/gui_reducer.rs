use vstd::prelude::*;

use crate::gui_model::{
    command_log_line, error_log_line, link_reset, logs_after_push, records_feedback, reduced,
    ActionPhase, ActionSlot, AppModel, ModelView, UiEvent, LOG_LIMIT,
};
use crate::text::{string_views, text};

verus! {

/// Appends a log line, dropping the oldest one when the window is over its limit.
pub fn push_log(model: &mut AppModel, line: String)
    ensures
        final(model)@ == (ModelView { logs: logs_after_push(old(model)@.logs, line@), ..old(model)@ }),
        final(model).action_feedback@ == old(model).action_feedback@,
        final(model).next_feedback_sequence == old(model).next_feedback_sequence,
{
    let ghost before = model.logs@;
    model.logs.push(line);
    assert(string_views(model.logs@) =~= string_views(before).push(line@));
    if model.logs.len() > LOG_LIMIT {
        let ghost pushed = model.logs@;
        model.logs.remove(0);
        assert(model.logs@ =~= pushed.drop_first());
        assert(string_views(model.logs@) =~= string_views(pushed).drop_first());
    }
}

fn reset_link(model: &mut AppModel)
    ensures
        final(model)@ == link_reset(old(model)@),
        final(model).action_feedback@ == old(model).action_feedback@,
        final(model).next_feedback_sequence == old(model).next_feedback_sequence,
{
    model.is_scanning = false;
    model.is_connecting = false;
    model.is_connected = false;
    model.active_action = None;
    model.heartbeat_ok = false;
    model.heartbeat_failures = 0;
    model.last_heartbeat_at = None;
    model.connected_device_name = None;
    model.scan_candidates.clear();
    assert(final(model)@.scan_candidates =~= Seq::empty());
}

fn release_slot(model: &mut AppModel, slot: ActionSlot)
    ensures
        final(model)@ == (ModelView {
            active_action: if old(model).active_action == Some(slot) {
                None
            } else {
                old(model).active_action
            },
            ..old(model)@
        }),
        final(model).action_feedback@ == old(model).action_feedback@,
        final(model).next_feedback_sequence == old(model).next_feedback_sequence,
{
    let matches = match model.active_action {
        Some(active) => active == slot,
        None => false,
    };
    if matches {
        model.active_action = None;
    }
}

/// Applies one event of the Bluetooth worker to the window state.
pub fn reduce(model: &mut AppModel, event: UiEvent)
    requires
        old(model).wf(),
        records_feedback(event) ==> old(model).next_feedback_sequence < u64::MAX,
    ensures
        final(model).wf(),
        final(model)@ == reduced(old(model)@, event),
{
    let ghost e = event;
    match event {
        UiEvent::Log(line) => push_log(model, line),
        UiEvent::ActionStarted { slot, request_id } => {
            model.active_action = Some(slot);
            model.record_action_feedback(slot, ActionPhase::Running, request_id, None, None);
        },
        UiEvent::ActionSucceeded { slot, request_id, detail } => {
            release_slot(model, slot);
            model.record_action_feedback(slot, ActionPhase::Succeeded, request_id, detail, None);
        },
        UiEvent::ActionFailed { slot, request_id, error } => {
            release_slot(model, slot);
            model.record_action_feedback(slot, ActionPhase::Failed, request_id, None, Some(error));
        },
        UiEvent::ScanStarted => {
            model.is_scanning = true;
            model.is_connecting = false;
            model.is_connected = false;
            model.heartbeat_ok = false;
            model.heartbeat_failures = 0;
            model.last_heartbeat_at = None;
            model.connected_device_name = None;
            model.scan_candidates.clear();
            assert(final(model)@.scan_candidates =~= Seq::empty());
        },
        UiEvent::ScanCandidateDiscovered(candidate) => {
            model.scan_candidates.push(candidate);
        },
        UiEvent::ScanFinished => {
            model.is_scanning = false;
        },
        UiEvent::ScanStopped => {
            model.is_scanning = false;
        },
        UiEvent::ConnectingToCandidate(name) => {
            model.is_scanning = false;
            model.is_connecting = true;
            model.is_connected = false;
            model.heartbeat_ok = false;
            model.heartbeat_failures = 0;
            model.last_heartbeat_at = None;
            model.connected_device_name = Some(name);
        },
        UiEvent::ConnectedDeviceSelected(name) => {
            model.is_scanning = false;
            model.is_connecting = false;
            model.is_connected = true;
            model.heartbeat_ok = true;
            model.heartbeat_failures = 0;
            model.last_heartbeat_at = None;
            model.connected_device_name = Some(name);
            model.scan_candidates.clear();
            assert(final(model)@.scan_candidates =~= Seq::empty());
        },
        UiEvent::HeartbeatOk { at } => {
            model.heartbeat_ok = true;
            model.heartbeat_failures = 0;
            model.last_heartbeat_at = Some(at);
        },
        UiEvent::HeartbeatMissed(failures) => {
            model.heartbeat_ok = false;
            model.heartbeat_failures = failures;
        },
        UiEvent::Disconnected { .. } => {
            reset_link(model);
        },
        UiEvent::WifiScanLoaded(networks) => {
            model.wifi_list = networks;
        },
        UiEvent::DiagnosticResult(result) => {
            model.diagnostic_result = Some(result);
        },
        UiEvent::ProvisionResult(result) => {
            model.provision_result = Some(result);
        },
        UiEvent::CommandCompleted(result) => {
            let mut line = text("[CMD] ");
            line.append(result.request_id.as_str());
            line.append(" ");
            line.append(result.code.as_str());
            line.append(": ");
            line.append(result.text.as_str());
            assert(line@ =~= command_log_line(result));
            push_log(model, line);
        },
        UiEvent::ConnectionFailed(err) => {
            reset_link(model);
            let mut line = text("[ERR] ");
            line.append(err.as_str());
            assert(line@ =~= error_log_line(err@));
            push_log(model, line);
        },
        UiEvent::Error(err) => {
            model.is_scanning = false;
            model.is_connecting = false;
            let mut line = text("[ERR] ");
            line.append(err.as_str());
            assert(line@ =~= error_log_line(err@));
            push_log(model, line);
        },
    }
}


/// The event's action slot, for the events that record feedback.
pub open spec fn event_slot(e: UiEvent) -> ActionSlot {
    match e {
        UiEvent::ActionStarted { slot, .. } => slot,
        UiEvent::ActionSucceeded { slot, .. } => slot,
        UiEvent::ActionFailed { slot, .. } => slot,
        _ => ActionSlot::DeviceScan,
    }
}

/// No event lets the log window grow past its limit.
pub proof fn lemma_log_window_stays_bounded(m: ModelView, e: UiEvent)
    requires
        m.logs.len() <= LOG_LIMIT,
    ensures
        reduced(m, e).logs.len() <= LOG_LIMIT,
{
}

/// Result cards are replaced only by a new result of their own kind: no other event,
/// a disconnect included, clears them.
pub proof fn lemma_result_cards_survive_other_events(m: ModelView, e: UiEvent)
    ensures
        !(e is DiagnosticResult) ==> reduced(m, e).diagnostic_result == m.diagnostic_result,
        !(e is ProvisionResult) ==> reduced(m, e).provision_result == m.provision_result,
{
}

/// Feedback recorded by an event carries a sequence number greater than that of every
/// other slot's feedback, so it is the latest among any slots that include its own.
pub proof fn lemma_recorded_feedback_is_latest(m: ModelView, e: UiEvent)
    requires
        crate::gui_model::feedback_wf(m.feedback, m.next_feedback_sequence),
        records_feedback(e),
        m.next_feedback_sequence < u64::MAX,
    ensures
        ({
            let r = reduced(m, e);
            let s = event_slot(e).slot_index();
            &&& r.feedback[s] matches Some(f) && f.slot == event_slot(e)
            &&& forall|t: int|
                0 <= t < r.feedback.len() && t != s ==> (#[trigger] r.feedback[t] matches Some(g)
                    ==> g.sequence < r.feedback[s]->0.sequence)
        }),
{
    let r = reduced(m, e);
    let s = event_slot(e).slot_index();
    assert forall|t: int| 0 <= t < r.feedback.len() && t != s implies (#[trigger] r.feedback[t] matches Some(g)
        ==> g.sequence < r.feedback[s]->0.sequence) by {
        assert(r.feedback[t] == m.feedback[t]);
    }
}

/// The feedback counter never goes back.
pub proof fn lemma_feedback_counter_monotonic(m: ModelView, e: UiEvent)
    requires
        records_feedback(e) ==> m.next_feedback_sequence < u64::MAX,
    ensures
        reduced(m, e).next_feedback_sequence >= m.next_feedback_sequence,
{
}

} // verus!
