use vstd::prelude::*;
use vstd::string::StrSliceExecFns;

use crate::cli_text::{candidate_label, translation};
use crate::gui_model::{
    format_scan_candidate_label, ActionSlot, AppModel, DiagnosticResultCard, ProvisionResultCard,
};
use crate::protocol::CommandPayload;
use crate::text::{append_signed_decimal, append_decimal, decimal, signed_decimal, text, text_eq};
use crate::wifi_rows::WifiDisplayRow;

verus! {

/// What the connection indicator in the header shows.
#[derive(Clone, Copy, Debug, PartialEq, Eq, Structural)]
pub enum ConnectionIndicator {
    /// Connected, but heartbeats have been missed.
    ConnectedWithWarnings,
    Connected,
    Connecting,
    /// Scanning for a device to connect to.
    Waiting,
    Disconnected,
}

/// The header's connection indicator: a link with missed heartbeats comes first, then a
/// link, a connection under way, a running scan, and otherwise no link.
pub fn connection_indicator(model: &AppModel) -> (r: ConnectionIndicator)
    ensures
        r == if model.is_connected && model.heartbeat_failures > 0 {
            ConnectionIndicator::ConnectedWithWarnings
        } else if model.is_connected {
            ConnectionIndicator::Connected
        } else if model.is_connecting {
            ConnectionIndicator::Connecting
        } else if model.is_scanning {
            ConnectionIndicator::Waiting
        } else {
            ConnectionIndicator::Disconnected
        },
{
    if model.is_connected && model.heartbeat_failures > 0 {
        ConnectionIndicator::ConnectedWithWarnings
    } else if model.is_connected {
        ConnectionIndicator::Connected
    } else if model.is_connecting {
        ConnectionIndicator::Connecting
    } else if model.is_scanning {
        ConnectionIndicator::Waiting
    } else {
        ConnectionIndicator::Disconnected
    }
}

pub open spec fn indicator_key(i: ConnectionIndicator) -> Seq<char> {
    match i {
        ConnectionIndicator::ConnectedWithWarnings => "conn_yes_warn"@,
        ConnectionIndicator::Connected => "conn_yes"@,
        ConnectionIndicator::Connecting => "conn_connecting"@,
        ConnectionIndicator::Waiting => "conn_wait"@,
        ConnectionIndicator::Disconnected => "conn_no"@,
    }
}

/// The message key of the indicator's label.
pub fn indicator_label_key(indicator: ConnectionIndicator) -> (r: &'static str)
    ensures
        r@ == indicator_key(indicator),
{
    match indicator {
        ConnectionIndicator::ConnectedWithWarnings => "conn_yes_warn",
        ConnectionIndicator::Connected => "conn_yes",
        ConnectionIndicator::Connecting => "conn_connecting",
        ConnectionIndicator::Waiting => "conn_wait",
        ConnectionIndicator::Disconnected => "conn_no",
    }
}

/// The scan button of the device panel.
#[derive(Clone, Copy, Debug, PartialEq, Eq, Structural)]
pub enum ScanControl {
    /// A scan runs: its button is shown disabled, beside a stop button.
    Running,
    /// No scan runs: the scan button, usable or not.
    Idle { enabled: bool },
}

/// A scan can be started only without a link, a connection under way or another action.
pub fn scan_control(model: &AppModel) -> (r: ScanControl)
    ensures
        r == if model.is_scanning {
            ScanControl::Running
        } else {
            ScanControl::Idle {
                enabled: !model.is_connected && !model.is_connecting && model.active_action is None,
            }
        },
{
    if model.is_scanning {
        ScanControl::Running
    } else {
        ScanControl::Idle {
            enabled: !model.is_connected && !model.is_connecting && model.active_action.is_none(),
        }
    }
}

/// The disconnect button: shown while linked to a named device, usable when no action
/// runs. `None` when it is not shown.
pub fn disconnect_control(model: &AppModel) -> (r: Option<bool>)
    ensures
        r == if model.connected_device_name is Some && model.is_connected {
            Some(model.active_action is None)
        } else {
            None::<bool>
        },
{
    if model.connected_device_name.is_some() && model.is_connected {
        Some(model.active_action.is_none())
    } else {
        None
    }
}

/// A button for one scanned device.
pub struct CandidateButton {
    pub name: String,
    pub label: String,
    pub enabled: bool,
}

/// The device being connected to is this candidate.
pub open spec fn is_connecting_to(model: AppModel, name: Seq<char>) -> bool {
    model.is_connecting && (model.connected_device_name matches Some(n) && n@ == name)
}

/// A candidate can be picked while no connection is under way and no action but a scan runs.
pub open spec fn can_pick(model: AppModel) -> bool {
    !model.is_connecting && (model.active_action is None || model.active_action == Some(
        ActionSlot::DeviceScan,
    ))
}

/// The device panel's buttons for the scanned devices, in the order they were found: each
/// labelled as in the candidate list, the one being connected to marked as such.
pub fn candidate_buttons(model: &AppModel) -> (r: Vec<CandidateButton>)
    ensures
        r@.len() == model.scan_candidates@.len(),
        forall|i: int| 0 <= i < r@.len() ==> {
            let c = #[trigger] model.scan_candidates@[i];
            &&& r@[i].name@ == c.name@
            &&& r@[i].enabled == can_pick(*model)
            &&& r@[i].label@ == if is_connecting_to(*model, c.name@) {
                candidate_label(c) + " ["@ + translation(model.lang, "conn_connecting"@) + "]"@
            } else {
                candidate_label(c)
            }
        },
{
    let enabled = !model.is_connecting && match model.active_action {
        None => true,
        Some(slot) => slot == ActionSlot::DeviceScan,
    };
    let mut buttons: Vec<CandidateButton> = Vec::new();
    let mut i: usize = 0;
    while i < model.scan_candidates.len()
        invariant
            i <= model.scan_candidates@.len(),
            buttons@.len() == i,
            enabled == can_pick(*model),
            forall|k: int| 0 <= k < i ==> {
                let c = #[trigger] model.scan_candidates@[k];
                &&& buttons@[k].name@ == c.name@
                &&& buttons@[k].enabled == can_pick(*model)
                &&& buttons@[k].label@ == if is_connecting_to(*model, c.name@) {
                    candidate_label(c) + " ["@ + translation(model.lang, "conn_connecting"@) + "]"@
                } else {
                    candidate_label(c)
                }
            },
        decreases model.scan_candidates@.len() - i,
    {
        let candidate = &model.scan_candidates[i];
        let connecting = model.is_connecting && match &model.connected_device_name {
            Some(n) => text_eq(n.as_str(), candidate.name.as_str()),
            None => false,
        };
        let mut label = format_scan_candidate_label(candidate);
        if connecting {
            label.append(" [");
            label.append(model.lang.t("conn_connecting"));
            label.append("]");
        }
        buttons.push(CandidateButton { name: text(candidate.name.as_str()), label, enabled });
        i = i + 1;
    }
    buttons
}

/// The diagnostic and provisioning commands can be sent while linked and idle.
pub fn device_commands_enabled(model: &AppModel) -> (r: bool)
    ensures
        r == (model.is_connected && model.active_action is None),
{
    model.is_connected && model.active_action.is_none()
}

/// A raw payload can be sent while no action runs.
pub fn raw_send_enabled(model: &AppModel) -> (r: bool)
    ensures
        r == model.active_action is None,
{
    model.active_action.is_none()
}

/// The provisioning request for the entered network: an empty password is sent as none.
pub fn provision_payload(ssid_input: &str, pwd_input: &str) -> (r: CommandPayload)
    ensures
        r matches CommandPayload::WifiProvision { ssid, pwd } && ssid@ == ssid_input@ && (if pwd_input@.len()
            == 0 {
            pwd is None
        } else {
            pwd matches Some(p) && p@ == pwd_input@
        }),
{
    CommandPayload::WifiProvision {
        ssid: text(ssid_input),
        pwd: if pwd_input.unicode_len() == 0 {
            None
        } else {
            Some(text(pwd_input))
        },
    }
}

/// The label of a network row: the name, with the number of access points when several
/// share it.
pub open spec fn wifi_row_label_text(row: WifiDisplayRow) -> Seq<char> {
    if row.instance_count > 1 {
        row.ssid@ + " [x"@ + decimal(row.instance_count as nat) + "]"@
    } else {
        row.ssid@
    }
}

pub fn wifi_row_label(row: &WifiDisplayRow) -> (r: String)
    ensures
        r@ == wifi_row_label_text(*row),
{
    let mut out = text(row.ssid.as_str());
    if row.instance_count > 1 {
        out.append(" [x");
        append_decimal(&mut out, row.instance_count as u64);
        out.append("]");
    }
    out
}

/// A network row is shown selected when its name is the one entered.
pub fn wifi_row_selected(ssid_input: &str, row: &WifiDisplayRow) -> (r: bool)
    ensures
        r == (ssid_input@ == row.ssid@),
{
    text_eq(ssid_input, row.ssid.as_str())
}

/// The signal column of a network row: `"{signal} dBm"`.
pub fn wifi_row_signal(row: &WifiDisplayRow) -> (r: String)
    ensures
        r@ == signed_decimal(row.signal as int) + " dBm"@,
{
    let mut out = String::new();
    append_signed_decimal(&mut out, row.signal as i64);
    out.append(" dBm");
    out
}

/// `"OK"` for a result that succeeded, `"FAIL"` otherwise.
pub fn result_status_text(ok: bool) -> (r: &'static str)
    ensures
        r@ == if ok { "OK"@ } else { "FAIL"@ },
{
    if ok {
        "OK"
    } else {
        "FAIL"
    }
}

/// The header of the diagnostic result: its title, its code in parentheses and its status.
pub fn diagnostic_result_header(card: &DiagnosticResultCard) -> (r: (String, String, &'static str))
    ensures
        r.0@ == card.title@,
        r.1@ == "("@ + card.code@ + ")"@,
        r.2@ == if card.ok { "OK"@ } else { "FAIL"@ },
{
    let mut code = text("(");
    code.append(card.code.as_str());
    code.append(")");
    (text(card.title.as_str()), code, result_status_text(card.ok))
}

/// The lines of the provisioning result after its status: status, network, address
/// (`N/A` without one) and the gateway's text.
pub open spec fn provision_lines(card: ProvisionResultCard) -> Seq<Seq<char>> {
    seq![
        "code: "@ + card.code@,
        "status: "@ + card.status@,
        "ssid: "@ + card.ssid@,
        "ip: "@ + match card.ip {
            Some(ip) => ip@,
            None => "N/A"@,
        },
        "text: "@ + card.text@,
    ]
}

fn labelled(label: &str, value: &str) -> (r: String)
    ensures
        r@ == label@ + value@,
{
    let mut out = text(label);
    out.append(value);
    out
}

pub fn provision_result_lines(card: &ProvisionResultCard) -> (r: Vec<String>)
    ensures
        r@.len() == 5,
        forall|i: int| 0 <= i < 5 ==> #[trigger] r@[i]@ == provision_lines(*card)[i],
{
    let mut lines: Vec<String> = Vec::new();
    lines.push(labelled("code: ", card.code.as_str()));
    lines.push(labelled("status: ", card.status.as_str()));
    lines.push(labelled("ssid: ", card.ssid.as_str()));
    match &card.ip {
        Some(ip) => lines.push(labelled("ip: ", ip.as_str())),
        None => lines.push(labelled("ip: ", "N/A")),
    }
    lines.push(labelled("text: ", card.text.as_str()));
    lines
}

} // verus!
