use vstd::prelude::*;

use crate::gui_model::{ActionSlot, DisconnectReason, UiEvent};
use crate::protocol::{command_name_of, CommandPayload, CommandRequest, CommandResponse};
use crate::text::text;
use crate::worker_events::{
    command_response_events, command_sent_log, details_fit_payload, details_fit_slot,
    disconnect_success_detail, manual_disconnect_log, request_success_detail, response_events, success_detail_of,
    ResponseDetails,
};

verus! {

pub open spec fn opt_view(o: Option<String>) -> Option<Seq<char>> {
    match o {
        Some(s) => Some(s@),
        None => None,
    }
}

/// `e` reports that `slot` failed with `error`.
pub open spec fn is_failure(e: UiEvent, slot: ActionSlot, request_id: Option<Seq<char>>, error: Seq<char>) -> bool {
    e matches UiEvent::ActionFailed { slot: s, request_id: id, error: m } && s == slot && opt_view(id)
        == request_id && m@ == error
}

/// `e` is an error line with `error`.
pub open spec fn is_error(e: UiEvent, error: Seq<char>) -> bool {
    e matches UiEvent::Error(m) && m@ == error
}

fn failed(slot: ActionSlot, request_id: Option<String>, error: String) -> (e: UiEvent)
    ensures
        is_failure(e, slot, opt_view(request_id), error@),
{
    UiEvent::ActionFailed { slot, request_id, error }
}

fn opt_copy(o: &Option<String>) -> (r: Option<String>)
    ensures
        opt_view(r) == opt_view(*o),
{
    match o {
        Some(s) => Some(text(s.as_str())),
        None => None,
    }
}

/// The events of an action that failed before or while talking to the device: the
/// failure of the action, then an error line, both `"{prefix}{error}"`.
pub fn action_failure_events(
    slot: ActionSlot,
    request_id: Option<String>,
    prefix: &str,
    error: &str,
) -> (r: Vec<UiEvent>)
    ensures
        r@.len() == 2,
        is_failure(r@[0], slot, opt_view(request_id), prefix@ + error@),
        is_error(r@[1], prefix@ + error@),
{
    let mut message = text(prefix);
    message.append(error);
    let copy = text(message.as_str());
    let mut events: Vec<UiEvent> = Vec::new();
    events.push(failed(slot, request_id, message));
    events.push(UiEvent::Error(copy));
    events
}

/// The events that start a command: the action starts under the request's identifier and
/// the sent command is logged.
pub fn command_started_events(slot: ActionSlot, request: &CommandRequest) -> (r: Vec<UiEvent>)
    ensures
        r@.len() == 2,
        r@[0] matches UiEvent::ActionStarted { slot: s, request_id: Some(id) } && s == slot && id@
            == request.id@,
        r@[1] matches UiEvent::Log(line) && line@ == ">> TX CMD: "@ + command_name_of(request.payload@) + " ("@ + request.id@ + ")"@,
{
    let name = request.payload.command_name();
    let mut events: Vec<UiEvent> = Vec::new();
    events.push(UiEvent::ActionStarted { slot, request_id: Some(text(request.id.as_str())) });
    events.push(UiEvent::Log(command_sent_log(name, request.id.as_str())));
    events
}

/// The payloads whose response data must decode before the response can be shown.
pub open spec fn needs_details(payload: CommandPayload) -> bool {
    payload is WifiScan || payload is SystemStatus || payload is WifiProvision
}

/// The detail a successful action reports, or the error that fails it: the decoded
/// detail for a Wi-Fi scan, a provisioning or a status request, the response code for a
/// ping, and nothing for the others.
pub open spec fn outcome_detail(
    slot: ActionSlot,
    response: CommandResponse,
    details: Result<ResponseDetails, String>,
) -> Result<Option<Seq<char>>, Seq<char>> {
    match slot {
        ActionSlot::WifiScan | ActionSlot::Provision | ActionSlot::Status => match details {
            Err(e) => Err(e@),
            Ok(d) => Ok(success_detail_of(slot, d)),
        },
        ActionSlot::Ping => Ok(Some(response.code@)),
        _ => Ok(None),
    }
}

/// The events after the final response of a command: those of the response itself, then
/// the action's success with its detail, or its failure with the response text; a
/// decoding failure of the response data fails the action and is reported.
pub fn command_outcome_events(
    slot: ActionSlot,
    request: &CommandRequest,
    response: &CommandResponse,
    payload_details: Result<ResponseDetails, String>,
    slot_details: Result<ResponseDetails, String>,
) -> (r: Vec<UiEvent>)
    requires
        payload_details matches Ok(d) ==> details_fit_payload(request.payload, d),
        slot_details matches Ok(d) ==> details_fit_slot(slot, d),
    ensures
        ({
            let id = Some(request.id@);
            if payload_details is Err && needs_details(request.payload) {
                let e = payload_details->Err_0@;
                &&& r@.len() == 2
                &&& is_failure(r@[0], slot, id, e)
                &&& is_error(r@[1], e)
            } else if !response.ok {
                &&& r@.len() >= 3
                &&& response_events(request.payload, *response, payload_details, r@.drop_last())
                &&& is_failure(r@.last(), slot, id, response.text@)
            } else {
                match outcome_detail(slot, *response, slot_details) {
                    Err(e) => {
                        &&& r@.len() >= 4
                        &&& response_events(request.payload, *response, payload_details, r@.subrange(0, r@.len() - 2))
                        &&& is_failure(r@[r@.len() - 2], slot, id, e)
                        &&& is_error(r@.last(), e)
                    },
                    Ok(detail) => {
                        &&& r@.len() >= 3
                        &&& response_events(request.payload, *response, payload_details, r@.drop_last())
                        &&& r@.last() matches UiEvent::ActionSucceeded { slot: s, request_id: Some(rid), detail: d }
                        &&& s == slot
                        &&& rid@ == request.id@
                        &&& opt_view(d) == detail
                    },
                }
            }
        }),
{
    proof {
        reveal_strlit("");
    }
    let id = Some(text(request.id.as_str()));
    let mut events = match command_response_events(&request.payload, response, payload_details) {
        Ok(events) => events,
        Err(e) => {
            return action_failure_events(slot, id, "", e.as_str());
        },
    };
    if response.ok {
        match request_success_detail(slot, &request.payload, response, slot_details) {
            Ok(detail) => {
                events.push(UiEvent::ActionSucceeded { slot, request_id: id, detail });
            },
            Err(e) => {
                let copy = text(e.as_str());
                events.push(failed(slot, id, e));
                events.push(UiEvent::Error(copy));
            },
        }
    } else {
        events.push(failed(slot, id, text(response.text.as_str())));
    }
    events
}

/// How a disconnect attempt ended.
pub enum DisconnectOutcome {
    Done,
    Failed(String),
    TimedOut,
}

/// The events of a manual disconnect: the action starts, the link is reported down and
/// logged, then the attempt's outcome.
pub fn disconnect_events(device_name: &str, outcome: DisconnectOutcome) -> (r: Vec<UiEvent>)
    ensures
        r@.len() >= 4,
        r@[0] matches UiEvent::ActionStarted { slot: s, request_id: None } && s == ActionSlot::Disconnect,
        r@[1] matches UiEvent::Disconnected { reason: DisconnectReason::Manual },
        r@[2] matches UiEvent::Log(line) && line@ == "[SYS] Disconnected from "@ + device_name@ + "."@,
        match outcome {
            DisconnectOutcome::Done => r@[3] matches UiEvent::ActionSucceeded {
                slot: s,
                request_id: None,
                detail: Some(d),
            } && s == ActionSlot::Disconnect && d@ == device_name@ && r@.len() == 4,
            DisconnectOutcome::Failed(e) => r@.len() == 5 && is_failure(
                r@[3],
                ActionSlot::Disconnect,
                None,
                "Disconnect fail: "@ + e@,
            ) && is_error(r@[4], "Disconnect fail: "@ + e@),
            DisconnectOutcome::TimedOut => r@.len() == 4 && is_error(
                r@[3],
                "Disconnect fail: timed out after 2s"@,
            ),
        },
{
    let mut events: Vec<UiEvent> = Vec::new();
    events.push(UiEvent::ActionStarted { slot: ActionSlot::Disconnect, request_id: None });
    events.push(UiEvent::Disconnected { reason: DisconnectReason::Manual });
    events.push(UiEvent::Log(manual_disconnect_log(device_name)));
    match outcome {
        DisconnectOutcome::Done => {
            events.push(
                UiEvent::ActionSucceeded {
                    slot: ActionSlot::Disconnect,
                    request_id: None,
                    detail: disconnect_success_detail(device_name),
                },
            );
        },
        DisconnectOutcome::Failed(e) => {
            let tail = action_failure_events(ActionSlot::Disconnect, None, "Disconnect fail: ", e.as_str());
            let mut tail = tail;
            let second = tail.pop().unwrap();
            let first = tail.pop().unwrap();
            events.push(first);
            events.push(second);
        },
        DisconnectOutcome::TimedOut => {
            events.push(UiEvent::Error(text("Disconnect fail: timed out after 2s")));
        },
    }
    events
}

} // verus!
