use vstd::prelude::*;

use crate::discovery::{trim_text, trimmed};
use crate::gui_model::{
    ActionSlot, CommandResultSummary, DiagnosticResultCard, ProvisionResultCard, UiEvent,
};
use crate::protocol::{CommandPayload, CommandResponse};
use crate::responses::{
    ProvisionResponseData, ProvisionState, StatusInterfaceIpv4, StatusResponseData,
    WifiScanResponseData,
};
use crate::scan::ScanProgressEvent;
use crate::text::{append_decimal, append_signed_decimal, decimal, decimal_text, signed_decimal, text};

verus! {

fn concat2(a: &str, b: &str) -> (r: String)
    ensures
        r@ == a@ + b@,
{
    let mut out = text(a);
    out.append(b);
    out
}

fn concat3(a: &str, b: &str, c: &str) -> (r: String)
    ensures
        r@ == a@ + b@ + c@,
{
    let mut out = text(a);
    out.append(b);
    out.append(c);
    out
}

pub fn scan_started_log(prefix: &str) -> (r: String)
    ensures
        r@ == "[SYS] Scanning for '"@ + prefix@ + "'..."@,
{
    concat3("[SYS] Scanning for '", prefix, "'...")
}

/// `"[SCAN][MATCH] {name} ({signal})"` for a matching device, `"[SCAN] ..."` otherwise.
pub open spec fn scan_progress_line(e: ScanProgressEvent) -> Seq<char> {
    (if e.matches_prefix {
        "[SCAN][MATCH]"@
    } else {
        "[SCAN]"@
    }) + " "@ + e.device_name@ + " ("@ + match e.rssi {
        Some(v) => signed_decimal(v as int) + " dBm"@,
        None => "RSSI unknown"@,
    } + ")"@
}

pub fn scan_progress_log(event: &ScanProgressEvent) -> (r: String)
    ensures
        r@ == scan_progress_line(*event),
{
    let mut out = text(if event.matches_prefix {
        "[SCAN][MATCH]"
    } else {
        "[SCAN]"
    });
    out.append(" ");
    out.append(event.device_name.as_str());
    out.append(" (");
    match event.rssi {
        Some(v) => {
            append_signed_decimal(&mut out, v as i64);
            out.append(" dBm");
        },
        None => out.append("RSSI unknown"),
    }
    out.append(")");
    assert(out@ =~= scan_progress_line(*event));
    out
}

pub fn scan_completed_log(named_device_count: usize, candidate_count: usize) -> (r: String)
    ensures
        r@ == "[SYS] Found "@ + decimal(named_device_count as nat) + " named device(s); "@
            + decimal(candidate_count as nat) + " candidate device(s) match the prefix."@,
{
    let mut out = text("[SYS] Found ");
    append_decimal(&mut out, named_device_count as u64);
    out.append(" named device(s); ");
    append_decimal(&mut out, candidate_count as u64);
    out.append(" candidate device(s) match the prefix.");
    out
}

pub fn scan_completed_detail(candidate_count: usize) -> (r: Option<String>)
    ensures
        r matches Some(t) && t@ == decimal(candidate_count as nat),
{
    Some(decimal_text(candidate_count as u64))
}

pub fn connect_started_log(device_name: &str) -> (r: String)
    ensures
        r@ == "[SYS] Connecting to "@ + device_name@ + "..."@,
{
    concat3("[SYS] Connecting to ", device_name, "...")
}

pub fn connect_selected_log(device_name: &str) -> (r: String)
    ensures
        r@ == "[SYS] Candidate selected, stopping scan and connecting to "@ + device_name@
            + "..."@,
{
    concat3("[SYS] Candidate selected, stopping scan and connecting to ", device_name, "...")
}

pub fn handshake_completed_log() -> (r: String)
    ensures
        r@ == "[SYS] Handshake complete. MTU synced."@,
{
    text("[SYS] Handshake complete. MTU synced.")
}

pub fn scan_stopped_log() -> (r: String)
    ensures
        r@ == "[SYS] Scan stopped by user."@,
{
    text("[SYS] Scan stopped by user.")
}

pub fn manual_disconnect_log(device_name: &str) -> (r: String)
    ensures
        r@ == "[SYS] Disconnected from "@ + device_name@ + "."@,
{
    concat3("[SYS] Disconnected from ", device_name, ".")
}

pub fn disconnect_success_detail(device_name: &str) -> (r: Option<String>)
    ensures
        r matches Some(t) && t@ == device_name@,
{
    Some(text(device_name))
}

/// The log line when missed heartbeats end a connection; `grace_elapsed` tells that the
/// grace window after the first miss has passed as well.
pub open spec fn heartbeat_disconnected_line(device_name: Seq<char>, failures: u8, grace_elapsed: bool) -> Seq<char> {
    "[ERR] Heartbeat failed "@ + decimal(failures as nat) + " times for "@ + device_name + (
    if grace_elapsed {
        ", grace window elapsed and connection was marked as disconnected."@
    } else {
        ", connection marked as disconnected."@
    })
}

pub fn heartbeat_disconnected_log(device_name: &str, failures: u8, grace_elapsed: bool) -> (r:
    String)
    ensures
        r@ == heartbeat_disconnected_line(device_name@, failures, grace_elapsed),
{
    let mut out = text("[ERR] Heartbeat failed ");
    append_decimal(&mut out, failures as u64);
    out.append(" times for ");
    out.append(device_name);
    if grace_elapsed {
        out.append(", grace window elapsed and connection was marked as disconnected.");
    } else {
        out.append(", connection marked as disconnected.");
    }
    assert(out@ =~= heartbeat_disconnected_line(device_name@, failures, grace_elapsed));
    out
}

pub fn command_sent_log(command_name: &str, request_id: &str) -> (r: String)
    ensures
        r@ == ">> TX CMD: "@ + command_name@ + " ("@ + request_id@ + ")"@,
{
    let mut out = text(">> TX CMD: ");
    out.append(command_name);
    out.append(" (");
    out.append(request_id);
    out.append(")");
    out
}

/// `"<< RX {id} {code}: {text}"`.
pub open spec fn response_line(r: CommandResponse) -> Seq<char> {
    "<< RX "@ + r.id@ + " "@ + r.code@ + ": "@ + r.text@
}

pub fn response_log_line(response: &CommandResponse) -> (r: String)
    ensures
        r@ == response_line(*response),
{
    let mut out = text("<< RX ");
    out.append(response.id.as_str());
    out.append(" ");
    out.append(response.code.as_str());
    out.append(": ");
    out.append(response.text.as_str());
    out
}

pub fn raw_payload_log(payload: &str) -> (r: String)
    ensures
        r@ == ">> TX RAW: "@ + trimmed(payload@),
{
    let t = trim_text(payload);
    concat2(">> TX RAW: ", t.as_str())
}

pub fn raw_payload_success_detail() -> (r: Option<String>)
    ensures
        r matches Some(t) && t@ == "written"@,
{
    Some(text("written"))
}

/// How `{:?}` writes a provisioning state.
pub open spec fn provision_state_debug(s: ProvisionState) -> Seq<char> {
    match s {
        ProvisionState::Connected => "Connected"@,
        ProvisionState::Failed => "Failed"@,
    }
}

fn provision_state_text(s: ProvisionState) -> (r: String)
    ensures
        r@ == provision_state_debug(s),
{
    match s {
        ProvisionState::Connected => text("Connected"),
        ProvisionState::Failed => text("Failed"),
    }
}

/// Typed response data, decoded from a response's `data` by what the request asked for.
#[derive(Debug, Clone, PartialEq)]
pub enum ResponseDetails {
    WifiScan(WifiScanResponseData),
    Status(StatusResponseData),
    Provision(ProvisionResponseData),
    Other,
}

/// Which typed data a response to `payload` carries.
pub open spec fn details_fit_payload(p: CommandPayload, d: ResponseDetails) -> bool {
    match p {
        CommandPayload::WifiScan { .. } => d is WifiScan,
        CommandPayload::SystemStatus => d is Status,
        CommandPayload::WifiProvision { .. } => d is Provision,
        _ => d is Other,
    }
}

/// Which typed data the success detail of an action needs.
pub open spec fn details_fit_slot(slot: ActionSlot, d: ResponseDetails) -> bool {
    match slot {
        ActionSlot::WifiScan => d is WifiScan,
        ActionSlot::Status => d is Status,
        ActionSlot::Provision => d is Provision,
        _ => d is Other,
    }
}

/// The result card of a status request.
pub open spec fn status_card(r: CommandResponse, d: StatusResponseData) -> (Seq<char>, bool, Seq<char>, Seq<Seq<char>>) {
    (
        "System Status"@,
        r.ok,
        r.code@,
        seq![
            "Hostname: "@ + d.hostname@,
            "System: "@ + d.system@,
            "User: "@ + d.user@,
            "Network: "@ + match d.network { Some(n) => n@, None => "Not connected"@ },
            "Preferred IP: "@ + match d.ip { Some(n) => n@, None => "Unavailable"@ },
        ] + if d.interfaces@.len() == 0 {
            seq!["Interfaces: none"@]
        } else {
            d.interfaces@.map_values(|i: StatusInterfaceIpv4| "Interface: "@ + i.summary())
        },
    )
}

pub open spec fn card_view(c: DiagnosticResultCard) -> (Seq<char>, bool, Seq<char>, Seq<Seq<char>>) {
    (c.title@, c.ok, c.code@, c.lines@.map_values(|l: String| l@))
}

fn labelled_or(label: &str, value: &Option<String>, fallback: &str) -> (r: String)
    ensures
        r@ == label@ + match value { Some(v) => v@, None => fallback@ },
{
    match value {
        Some(v) => concat2(label, v.as_str()),
        None => concat2(label, fallback),
    }
}

/// The diagnostic result card for a response, when the request was a diagnostic one; a
/// decoding failure of the response data is passed on.
pub fn diagnostic_result(
    payload: &CommandPayload,
    response: &CommandResponse,
    details: Result<ResponseDetails, String>,
) -> (r: Result<Option<DiagnosticResultCard>, String>)
    requires
        details matches Ok(d) ==> details_fit_payload(*payload, d),
    ensures
        match payload {
            CommandPayload::SystemStatus => match details {
                Err(e) => r == Err::<Option<DiagnosticResultCard>, String>(e),
                Ok(d) => r matches Ok(Some(c)) && card_view(c) == status_card(*response, d->Status_0)
                    && c.lines@.len() >= 6 && c.lines@[0]@ == "Hostname: "@ + d->Status_0.hostname@
                    && c.lines@[1]@ == "System: "@ + d->Status_0.system@
                    && c.lines@[2]@ == "User: "@ + d->Status_0.user@,
            },
            _ => r == Ok::<Option<DiagnosticResultCard>, String>(None),
        },
{
    match payload {
        CommandPayload::SystemStatus => {
            let data = match details {
                Err(e) => {
                    return Err(e);
                },
                Ok(ResponseDetails::Status(d)) => d,
                Ok(_) => {
                    return Ok(None);
                },
            };
            let mut lines: Vec<String> = Vec::new();
            lines.push(concat2("Hostname: ", data.hostname.as_str()));
            lines.push(concat2("System: ", data.system.as_str()));
            lines.push(concat2("User: ", data.user.as_str()));
            lines.push(labelled_or("Network: ", &data.network, "Not connected"));
            lines.push(labelled_or("Preferred IP: ", &data.ip, "Unavailable"));
            let ghost head = lines@.map_values(|l: String| l@);
            if data.interfaces.len() == 0 {
                lines.push(text("Interfaces: none"));
                assert(lines@.map_values(|l: String| l@) =~= head.push("Interfaces: none"@));
            } else {
                let mut i: usize = 0;
                while i < data.interfaces.len()
                    invariant
                        i <= data.interfaces@.len(),
                        lines@.map_values(|l: String| l@) == head + data.interfaces@.take(i as int).map_values(
                            |it: StatusInterfaceIpv4| "Interface: "@ + it.summary(),
                        ),
                    decreases data.interfaces@.len() - i,
                {
                    let ghost before = lines@.map_values(|l: String| l@);
                    let summary = data.interfaces[i].summary_line();
                    let line = concat2("Interface: ", summary.as_str());
                    lines.push(line);
                    i = i + 1;
                    proof {
                        let f = |it: StatusInterfaceIpv4| "Interface: "@ + it.summary();
                        assert(data.interfaces@.take(i as int).map_values(f) =~= data.interfaces@.take(i - 1).map_values(f).push(f(data.interfaces@[i - 1])));
                        assert(lines@.map_values(|l: String| l@) =~= before.push(line@));
                    }
                }
                assert(data.interfaces@.take(data.interfaces@.len() as int) =~= data.interfaces@);
            }
            let card = DiagnosticResultCard {
                title: text("System Status"),
                ok: response.ok,
                code: text(response.code.as_str()),
                lines,
            };
            assert(card_view(card).3 =~= status_card(*response, data).3);
            proof {
                let views = card.lines@.map_values(|l: String| l@);
                assert(views.len() == card.lines@.len());
                assert(views[0] == card.lines@[0]@ && views[1] == card.lines@[1]@ && views[2] == card.lines@[2]@);
            }
            Ok(Some(card))
        },
        _ => Ok(None),
    }
}

pub open spec fn provision_card_view(c: ProvisionResultCard) -> (bool, Seq<char>, Seq<char>, Seq<char>, Option<Seq<char>>, Seq<char>) {
    (c.ok, c.code@, c.status@, c.ssid@, match c.ip { Some(i) => Some(i@), None => None }, c.text@)
}

/// The provisioning result card of a response to a provisioning request.
pub open spec fn provision_card(r: CommandResponse, d: ProvisionResponseData) -> (bool, Seq<char>, Seq<char>, Seq<char>, Option<Seq<char>>, Seq<char>) {
    (r.ok, r.code@, provision_state_debug(d.status), d.ssid@, match d.ip { Some(i) => Some(i@), None => None }, r.text@)
}

pub fn provision_result(
    payload: &CommandPayload,
    response: &CommandResponse,
    details: Result<ResponseDetails, String>,
) -> (r: Result<Option<ProvisionResultCard>, String>)
    requires
        details matches Ok(d) ==> details_fit_payload(*payload, d),
    ensures
        match payload {
            CommandPayload::WifiProvision { .. } => match details {
                Err(e) => r == Err::<Option<ProvisionResultCard>, String>(e),
                Ok(d) => r matches Ok(Some(c)) && provision_card_view(c) == provision_card(*response, d->Provision_0),
            },
            _ => r == Ok::<Option<ProvisionResultCard>, String>(None),
        },
{
    match payload {
        CommandPayload::WifiProvision { .. } => {
            let data = match details {
                Err(e) => {
                    return Err(e);
                },
                Ok(ResponseDetails::Provision(d)) => d,
                Ok(_) => {
                    return Ok(None);
                },
            };
            let card = ProvisionResultCard {
                ok: response.ok,
                code: text(response.code.as_str()),
                status: provision_state_text(data.status),
                ssid: data.ssid,
                ip: data.ip,
                text: text(response.text.as_str()),
            };
            Ok(Some(card))
        },
        _ => Ok(None),
    }
}

/// The success detail of an action: the number of networks of a Wi-Fi scan, the state of
/// a provisioning, the host name of a status request.
pub open spec fn success_detail_of(slot: ActionSlot, d: ResponseDetails) -> Option<Seq<char>> {
    match slot {
        ActionSlot::WifiScan => Some(decimal(d->WifiScan_0.networks@.len())),
        ActionSlot::Provision => Some(provision_state_debug(d->Provision_0.status)),
        ActionSlot::Status => Some(d->Status_0.hostname@),
        _ => None,
    }
}

pub fn request_success_detail(
    slot: ActionSlot,
    _payload: &CommandPayload,
    response: &CommandResponse,
    details: Result<ResponseDetails, String>,
) -> (r: Result<Option<String>, String>)
    requires
        details matches Ok(d) ==> details_fit_slot(slot, d),
    ensures
        match slot {
            ActionSlot::WifiScan | ActionSlot::Provision | ActionSlot::Status => match details {
                Err(e) => r == Err::<Option<String>, String>(e),
                Ok(d) => r matches Ok(Some(t)) && success_detail_of(slot, d) == Some(t@),
            },
            ActionSlot::Ping => r matches Ok(Some(t)) && t@ == response.code@,
            _ => r == Ok::<Option<String>, String>(None),
        },
{
    match slot {
        ActionSlot::WifiScan => match details {
            Err(e) => Err(e),
            Ok(ResponseDetails::WifiScan(d)) => Ok(Some(decimal_text(d.networks.len() as u64))),
            Ok(_) => Ok(None),
        },
        ActionSlot::Provision => match details {
            Err(e) => Err(e),
            Ok(ResponseDetails::Provision(d)) => Ok(Some(provision_state_text(d.status))),
            Ok(_) => Ok(None),
        },
        ActionSlot::Status => match details {
            Err(e) => Err(e),
            Ok(ResponseDetails::Status(d)) => Ok(Some(d.hostname)),
            Ok(_) => Ok(None),
        },
        ActionSlot::Ping => Ok(Some(text(response.code.as_str()))),
        _ => Ok(None),
    }
}

/// The interface events for a final response: loaded networks for a Wi-Fi scan, a result
/// card for status and provisioning requests, then the completion and its log line.
/// `events` are what a final response reports: the loaded result for a Wi-Fi scan, a
/// status or a provisioning request, then the completed command and the response's log line.
pub open spec fn response_events(
    payload: CommandPayload,
    response: CommandResponse,
    details: Result<ResponseDetails, String>,
    events: Seq<UiEvent>,
) -> bool {
    &&& events.len() >= 2
    &&& events.last() matches UiEvent::Log(line) && line@ == response_line(response)
    &&& events[events.len() - 2] matches UiEvent::CommandCompleted(s) && s.request_id@
        == response.id@ && s.code@ == response.code@ && s.text@ == response.text@ && s.ok
        == response.ok
    &&& (payload is WifiScan) ==> (events[0] matches UiEvent::WifiScanLoaded(n)
        && n@ == details->Ok_0->WifiScan_0.networks@ && events.len() == 3)
    &&& (payload is SystemStatus) ==> (events[0] matches UiEvent::DiagnosticResult(c)
        && card_view(c) == status_card(response, details->Ok_0->Status_0) && events.len() == 3)
    &&& (payload is WifiProvision) ==> (events[0] matches UiEvent::ProvisionResult(c)
        && provision_card_view(c) == provision_card(response, details->Ok_0->Provision_0) && events.len() == 3)
    &&& !(payload is WifiScan || payload is SystemStatus || payload is WifiProvision) ==> events.len() == 2
}

pub fn command_response_events(
    payload: &CommandPayload,
    response: &CommandResponse,
    details: Result<ResponseDetails, String>,
) -> (r: Result<Vec<UiEvent>, String>)
    requires
        details matches Ok(d) ==> details_fit_payload(*payload, d),
    ensures
        details matches Err(e) ==> match payload {
            CommandPayload::WifiScan { .. } | CommandPayload::SystemStatus | CommandPayload::WifiProvision { .. } => r == Err::<Vec<UiEvent>, String>(e),
            _ => r is Ok,
        },
        details is Ok ==> r is Ok,
        r matches Ok(events) ==> response_events(*payload, *response, details, events@),
{
    let mut events: Vec<UiEvent> = Vec::new();
    match payload {
        CommandPayload::WifiScan { .. } => match details {
            Err(e) => {
                return Err(e);
            },
            Ok(ResponseDetails::WifiScan(d)) => {
                events.push(UiEvent::WifiScanLoaded(d.networks));
            },
            Ok(_) => {},
        },
        CommandPayload::SystemStatus => {
            match diagnostic_result(payload, response, details) {
                Err(e) => {
                    return Err(e);
                },
                Ok(Some(card)) => events.push(UiEvent::DiagnosticResult(card)),
                Ok(None) => {},
            }
        },
        CommandPayload::WifiProvision { .. } => {
            match provision_result(payload, response, details) {
                Err(e) => {
                    return Err(e);
                },
                Ok(Some(card)) => events.push(UiEvent::ProvisionResult(card)),
                Ok(None) => {},
            }
        },
        _ => {},
    }
    let summary = CommandResultSummary {
        request_id: text(response.id.as_str()),
        code: text(response.code.as_str()),
        text: text(response.text.as_str()),
        ok: response.ok,
    };
    events.push(UiEvent::CommandCompleted(summary));
    events.push(UiEvent::Log(response_log_line(response)));
    Ok(events)
}


/// The status card shows what the gateway reported about its host: its first lines are
/// the host name, the operating system and the user, each after its label, and the card
/// does not depend on the gateway's Bluetooth device name.
pub proof fn lemma_status_card_shows_the_host(r: CommandResponse, d: StatusResponseData, e: StatusResponseData)
    requires
        e.hostname == d.hostname,
        e.system == d.system,
        e.user == d.user,
        e.network == d.network,
        e.ip == d.ip,
        e.interfaces == d.interfaces,
    ensures
        status_card(r, d).0 == "System Status"@,
        status_card(r, d).3.len() >= 6,
        status_card(r, d).3[0] == "Hostname: "@ + d.hostname@,
        status_card(r, d).3[1] == "System: "@ + d.system@,
        status_card(r, d).3[2] == "User: "@ + d.user@,
        status_card(r, d).3[3] == "Network: "@ + match d.network {
            Some(n) => n@,
            None => "Not connected"@,
        },
        status_card(r, d).3[4] == "Preferred IP: "@ + match d.ip {
            Some(n) => n@,
            None => "Unavailable"@,
        },
        d.interfaces@.len() == 0 ==> status_card(r, d).3.len() == 6 && status_card(r, d).3[5] == "Interfaces: none"@,
        d.interfaces@.len() > 0 ==> status_card(r, d).3.len() == 5 + d.interfaces@.len() && forall|i: int|
            0 <= i < d.interfaces@.len() ==> #[trigger] status_card(r, d).3[5 + i] == "Interface: "@ + d.interfaces@[i].summary(),
        status_card(r, d).1 == r.ok,
        status_card(r, d).2 == r.code@,
        status_card(r, e) == status_card(r, d),
{
}

} // verus!
