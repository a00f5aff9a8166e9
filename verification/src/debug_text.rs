use vstd::prelude::*;
use vstd::string::StrSliceExecFns;
use vstd::utf8::encode_utf8;

use crate::json::{entry_value, JsonEntry, JsonValue};
use crate::protocol::{protocol_error_text, CommandResponse, ProtocolError};
use crate::receipt::{object_members, unsigned_value, ChunkReceipt};
use crate::response::{TransportAckReceipt, TransportAckType};
use crate::text::{
    append_decimal, append_signed_decimal, decimal, join_texts, joined, signed_decimal,
    string_views, text,
};
use crate::trace::{bool_text, lossy_utf8, phase_debug, utf8_lossy};
use crate::trace_box::repeated;

verus! {

/// One step of the Bluetooth probe that succeeded.
#[derive(Debug, Clone, PartialEq, Eq)]
pub struct DebugStep {
    pub name: &'static str,
    pub detail: String,
}

/// `"[OK] {name:<18} {detail}"`: the name padded with spaces to 18 characters.
pub open spec fn step_line(name: Seq<char>, detail: Seq<char>) -> Seq<char> {
    "[OK] "@ + name + (if name.len() < 18 {
        repeated(" "@, (18 - name.len()) as nat)
    } else {
        Seq::empty()
    }) + " "@ + detail
}

impl DebugStep {
    pub fn ok(name: &'static str, detail: String) -> (s: DebugStep)
        ensures
            s.name == name,
            s.detail == detail,
    {
        DebugStep { name, detail }
    }

    pub fn line(&self) -> (r: String)
        ensures
            r@ == step_line(self.name@, self.detail@),
    {
        let mut out = text("[OK] ");
        out.append(self.name);
        let width = self.name.unicode_len();
        let mut pad: usize = width;
        while pad < 18
            invariant
                width == self.name@.len(),
                width <= pad <= 18 || (width > 18 && pad == width),
                out@ == "[OK] "@ + self.name@ + repeated(" "@, (pad - width) as nat),
            decreases 18 - pad,
        {
            out.append(" ");
            pad = pad + 1;
            assert(out@ =~= "[OK] "@ + self.name@ + repeated(" "@, (pad - width) as nat));
        }
        out.append(" ");
        out.append(self.detail.as_str());
        proof {
            if width >= 18 {
                assert(repeated(" "@, 0) =~= Seq::<char>::empty());
            }
        }
        assert(out@ =~= step_line(self.name@, self.detail@));
        out
    }
}

/// What the probe saw of the target peripheral.
#[derive(Debug, Clone, PartialEq, Eq)]
pub struct DebugPeripheralSummary {
    pub local_name: String,
    pub rssi: Option<i16>,
    pub address: String,
    pub advertised_services: Vec<String>,
}

/// `"name={} rssi={} address={} advertised_services=[{}]"`.
pub open spec fn peripheral_summary_text(s: DebugPeripheralSummary) -> Seq<char> {
    "name="@ + s.local_name@ + " rssi="@ + match s.rssi {
        Some(v) => signed_decimal(v as int) + " dBm"@,
        None => "unknown"@,
    } + " address="@ + s.address@ + " advertised_services=["@ + (if s.advertised_services@.len()
        == 0 {
        "none"@
    } else {
        joined(string_views(s.advertised_services@), ", "@)
    }) + "]"@
}

pub fn format_peripheral_summary(summary: &DebugPeripheralSummary) -> (r: String)
    ensures
        r@ == peripheral_summary_text(*summary),
{
    let services = if summary.advertised_services.len() == 0 {
        text("none")
    } else {
        join_texts(summary.advertised_services.as_slice(), ", ")
    };
    let mut out = text("name=");
    out.append(summary.local_name.as_str());
    out.append(" rssi=");
    match summary.rssi {
        Some(v) => {
            append_signed_decimal(&mut out, v as i64);
            out.append(" dBm");
        },
        None => out.append("unknown"),
    }
    out.append(" address=");
    out.append(summary.address.as_str());
    out.append(" advertised_services=[");
    out.append(services.as_str());
    out.append("]");
    assert(out@ =~= peripheral_summary_text(*summary));
    out
}

/// How `{:?}` writes a string.
pub uninterp spec fn debug_quoted(s: Seq<char>) -> Seq<char>;

/// Writes `s` with `format!("{:?}", s)`: the quoted, escaped text, which depends on `s`
/// alone.
#[verifier::external_body]
fn quoted(s: &str) -> (r: String)
    ensures
        r@ == debug_quoted(s@),
{
    format!("{:?}", s)
}

/// How `{:?}` writes an optional string.
pub open spec fn debug_option(o: Option<String>) -> Seq<char> {
    match o {
        Some(s) => "Some("@ + debug_quoted(s@) + ")"@,
        None => "None"@,
    }
}

fn option_debug(o: &Option<String>) -> (r: String)
    ensures
        r@ == debug_option(*o),
{
    match o {
        Some(s) => {
            let mut out = text("Some(");
            let q = quoted(s.as_str());
            out.append(q.as_str());
            out.append(")");
            out
        },
        None => text("None"),
    }
}

pub open spec fn text_value(v: Option<JsonValue>) -> Option<Seq<char>> {
    match v {
        Some(JsonValue::String(s)) => Some(s@),
        _ => None,
    }
}

pub open spec fn or_else(o: Option<Seq<char>>, d: Seq<char>) -> Seq<char> {
    match o {
        Some(t) => t,
        None => d,
    }
}

pub open spec fn or_zero(o: Option<u64>) -> u64 {
    match o {
        Some(u) => u,
        None => 0,
    }
}

/// The `data.chunk` object of a response, if it has one.
pub open spec fn chunk_object(r: CommandResponse) -> Option<Seq<JsonEntry>> {
    match r.data {
        Some(d) => object_members(entry_value(d@, "chunk"@)),
        None => None,
    }
}

/// The probe's line for a parsed notification: chunk metadata and payload for a chunk,
/// else the response's frame fields.
pub open spec fn parsed_notification_line(r: CommandResponse) -> Seq<char> {
    match chunk_object(r) {
        Some(chunk) => {
            let payload = or_else(text_value(entry_value(chunk, "payload"@)), Seq::empty());
            "[RX:chunk] id="@ + r.id@ + " mode="@ + or_else(
                text_value(entry_value(chunk, "mode"@)),
                "<missing>"@,
            ) + " index="@ + decimal(or_zero(unsigned_value(entry_value(chunk, "index"@))) as nat)
                + "/"@ + decimal(or_zero(unsigned_value(entry_value(chunk, "total"@))) as nat)
                + " payload_bytes="@ + decimal(encode_utf8(payload).len()) + " payload="@ + payload
        },
        None => "[RX:frame] id="@ + r.id@ + " cmd="@ + debug_option(r.cmd) + " code="@ + r.code@
            + " phase="@ + phase_debug(r.phase) + " final="@ + bool_text(r.final_flag) + " text="@
            + r.text@,
    }
}

/// The probe's lines for one raw notification: its size and text, then what it parsed to.
pub open spec fn notification_lines(raw: Seq<u8>, parsed: Result<CommandResponse, ProtocolError>) -> Seq<Seq<char>> {
    seq![
        "[RX:raw] bytes="@ + decimal(raw.len()) + " "@ + lossy_utf8(raw),
        match parsed {
            Ok(r) => parsed_notification_line(r),
            Err(e) => "[RX:parse-error] "@ + protocol_error_text(e@),
        },
    ]
}

pub(crate) fn text_member<'a>(entries: &'a Vec<JsonEntry>, key: &str) -> (r: Option<&'a str>)
    ensures
        match r {
            Some(t) => text_value(entry_value(entries@, key@)) == Some(t@),
            None => text_value(entry_value(entries@, key@)) is None,
        },
{
    match crate::json::find_entry(entries, key) {
        Some(i) => match &entries[i].value {
            JsonValue::String(s) => Some(s.as_str()),
            _ => None,
        },
        None => None,
    }
}

pub(crate) fn number_member(entries: &Vec<JsonEntry>, key: &str) -> (r: u64)
    ensures
        r == or_zero(unsigned_value(entry_value(entries@, key@))),
{
    match crate::json::find_entry(entries, key) {
        Some(i) => match &entries[i].value {
            JsonValue::Number(crate::json::JsonNumber::Unsigned(u)) => *u,
            _ => 0,
        },
        None => 0,
    }
}

pub(crate) fn chunk_members(response: &CommandResponse) -> (r: Option<&Vec<JsonEntry>>)
    ensures
        match r {
            Some(es) => chunk_object(*response) == Some(es@),
            None => chunk_object(*response) is None,
        },
{
    match &response.data {
        Some(d) => match crate::json::find_entry(d, "chunk") {
            Some(i) => match &d[i].value {
                JsonValue::Object(es) => Some(es),
                _ => None,
            },
            None => None,
        },
        None => None,
    }
}

fn parsed_line(response: &CommandResponse) -> (r: String)
    ensures
        r@ == parsed_notification_line(*response),
{
    let chunk = match &response.data {
        Some(d) => match crate::json::find_entry(d, "chunk") {
            Some(i) => match &d[i].value {
                JsonValue::Object(es) => Some(es),
                _ => None,
            },
            None => None,
        },
        None => None,
    };
    match chunk {
        Some(es) => {
            let payload = match text_member(es, "payload") {
                Some(p) => p,
                None => {
                    proof {
                        reveal_strlit("");
                    }
                    ""
                },
            };
            let mode = match text_member(es, "mode") {
                Some(m) => m,
                None => "<missing>",
            };
            let mut out = text("[RX:chunk] id=");
            out.append(response.id.as_str());
            out.append(" mode=");
            out.append(mode);
            out.append(" index=");
            append_decimal(&mut out, number_member(es, "index"));
            out.append("/");
            append_decimal(&mut out, number_member(es, "total"));
            out.append(" payload_bytes=");
            append_decimal(&mut out, payload.as_bytes().len() as u64);
            out.append(" payload=");
            out.append(payload);
            assert(out@ =~= parsed_notification_line(*response));
            out
        },
        None => {
            let mut out = text("[RX:frame] id=");
            out.append(response.id.as_str());
            out.append(" cmd=");
            let c = option_debug(&response.cmd);
            out.append(c.as_str());
            out.append(" code=");
            out.append(response.code.as_str());
            out.append(" phase=");
            out.append(match response.phase {
                crate::protocol::ResponsePhase::Accepted => "Accepted",
                crate::protocol::ResponsePhase::Progress => "Progress",
                crate::protocol::ResponsePhase::Result => "Result",
            });
            out.append(" final=");
            out.append(if response.final_flag {
                "true"
            } else {
                "false"
            });
            out.append(" text=");
            out.append(response.text.as_str());
            assert(out@ =~= parsed_notification_line(*response));
            out
        },
    }
}

/// The probe's log lines for one notification; `parsed` is what the notification parsed
/// to as a response.
pub fn log_notification(raw: &[u8], parsed: &Result<CommandResponse, ProtocolError>) -> (r: Vec<
    String,
>)
    ensures
        string_views(r@) == notification_lines(raw@, *parsed),
{
    let mut first = text("[RX:raw] bytes=");
    append_decimal(&mut first, raw.len() as u64);
    first.append(" ");
    let body = utf8_lossy(raw);
    first.append(body.as_str());
    let second = match parsed {
        Ok(r) => parsed_line(r),
        Err(e) => {
            let mut out = text("[RX:parse-error] ");
            let m = e.to_text();
            out.append(m.as_str());
            out
        },
    };
    let mut lines: Vec<String> = Vec::new();
    lines.push(first);
    lines.push(second);
    assert(string_views(lines@) =~= notification_lines(raw@, *parsed));
    lines
}

/// The probe's line for a reassembled response; `encoded` is the response encoded again.
pub open spec fn reassembled_line(encoded: Result<Seq<u8>, Seq<char>>) -> Seq<char> {
    match encoded {
        Ok(bytes) => "[RX:assembled] bytes="@ + decimal(bytes.len()) + " "@ + lossy_utf8(bytes),
        Err(e) => "[RX:assembled-error] "@ + e,
    }
}

pub fn log_reassembled_response(encoded: &Result<Vec<u8>, String>) -> (r: String)
    ensures
        r@ == reassembled_line(match encoded {
            Ok(b) => Ok(b@),
            Err(e) => Err(e@),
        }),
{
    match encoded {
        Ok(bytes) => {
            let mut out = text("[RX:assembled] bytes=");
            append_decimal(&mut out, bytes.len() as u64);
            out.append(" ");
            let body = utf8_lossy(bytes.as_slice());
            out.append(body.as_str());
            out
        },
        Err(e) => {
            let mut out = text("[RX:assembled-error] ");
            out.append(e.as_str());
            out
        },
    }
}

fn phase_name(phase: crate::protocol::ResponsePhase) -> (r: &'static str)
    ensures
        r@ == phase_debug(phase),
{
    match phase {
        crate::protocol::ResponsePhase::Accepted => "Accepted",
        crate::protocol::ResponsePhase::Progress => "Progress",
        crate::protocol::ResponsePhase::Result => "Result",
    }
}

/// The detail of the probe's `tx` step: `"{command} id={id} bytes={n}"`.
pub fn probe_tx_detail(command_name: &str, request_id: &str, byte_count: usize) -> (r: String)
    ensures
        r@ == command_name@ + " id="@ + request_id@ + " bytes="@ + decimal(byte_count as nat),
{
    let mut out = text(command_name);
    out.append(" id=");
    out.append(request_id);
    out.append(" bytes=");
    append_decimal(&mut out, byte_count as u64);
    out
}

/// The detail of the probe's `rx` step for the answer to its command.
pub open spec fn probe_rx_text(command_name: Seq<char>, r: CommandResponse) -> Seq<char> {
    command_name + " id="@ + r.id@ + " ok="@ + bool_text(r.ok) + " code="@ + r.code@ + " phase="@
        + phase_debug(r.phase) + " final="@ + bool_text(r.final_flag) + " text="@ + r.text@
}

pub fn probe_rx_detail(command_name: &str, response: &CommandResponse) -> (r: String)
    ensures
        r@ == probe_rx_text(command_name@, *response),
{
    let mut out = text(command_name);
    out.append(" id=");
    out.append(response.id.as_str());
    out.append(" ok=");
    out.append(if response.ok { "true" } else { "false" });
    out.append(" code=");
    out.append(response.code.as_str());
    out.append(" phase=");
    out.append(phase_name(response.phase));
    out.append(" final=");
    out.append(if response.final_flag { "true" } else { "false" });
    out.append(" text=");
    out.append(response.text.as_str());
    assert(out@ =~= probe_rx_text(command_name@, *response));
    out
}

/// The probe's line for a response to some other request.
pub open spec fn other_response_text(r: CommandResponse) -> Seq<char> {
    "[RX:other] id="@ + r.id@ + " cmd="@ + debug_option(r.cmd) + " code="@ + r.code@ + " final="@
        + bool_text(r.final_flag)
}

pub fn other_response_line(response: &CommandResponse) -> (r: String)
    ensures
        r@ == other_response_text(*response),
{
    let mut out = text("[RX:other] id=");
    out.append(response.id.as_str());
    out.append(" cmd=");
    let c = option_debug(&response.cmd);
    out.append(c.as_str());
    out.append(" code=");
    out.append(response.code.as_str());
    out.append(" final=");
    out.append(if response.final_flag { "true" } else { "false" });
    assert(out@ =~= other_response_text(*response));
    out
}

/// The probe's trace of a write: `"[QOS:tx] {label} bytes={n} write=with-response"`.
pub fn qos_write_line(label: &str, byte_count: usize) -> (r: String)
    ensures
        r@ == "[QOS:tx] "@ + label@ + " bytes="@ + decimal(byte_count as nat) + " write=with-response"@,
{
    let mut out = text("[QOS:tx] ");
    out.append(label);
    out.append(" bytes=");
    append_decimal(&mut out, byte_count as u64);
    out.append(" write=with-response");
    out
}

/// The probe's trace of a write retried without a response after `reason`.
pub fn qos_fallback_line(label: &str, reason: &str) -> (r: String)
    ensures
        r@ == "[QOS:tx] "@ + label@ + " fallback=without-response reason="@ + reason@,
{
    let mut out = text("[QOS:tx] ");
    out.append(label);
    out.append(" fallback=without-response reason=");
    out.append(reason);
    out
}

/// How `{:?}` writes a transport acknowledgement's type.
pub open spec fn ack_type_debug(t: TransportAckType) -> Seq<char> {
    match t {
        TransportAckType::Range => "Range"@,
        TransportAckType::Event => "Event"@,
    }
}

/// The probe's trace of a transport acknowledgement it sent.
pub fn transport_ack_line(receipt: &TransportAckReceipt) -> (r: String)
    ensures
        r@ == "[QOS:transport-ack] kind="@ + ack_type_debug(receipt.ack_type) + " stream="@ + decimal(
            receipt.stream_id as nat,
        ) + " index="@ + decimal(receipt.index as nat),
{
    let mut out = text("[QOS:transport-ack] kind=");
    out.append(match receipt.ack_type {
        TransportAckType::Range => "Range",
        TransportAckType::Event => "Event",
    });
    out.append(" stream=");
    append_decimal(&mut out, receipt.stream_id as u64);
    out.append(" index=");
    append_decimal(&mut out, receipt.index as u64);
    out
}

/// The probe's trace of a chunk acknowledgement it sent.
pub fn chunk_ack_line(receipt: &ChunkReceipt) -> (r: String)
    ensures
        r@ == "[QOS:ack] id="@ + receipt.response_id@ + " seq="@ + decimal(receipt.response_seq as nat)
            + " chunk="@ + decimal(receipt.chunk_index as nat) + "/"@ + decimal(
            receipt.chunk_total as nat,
        ),
{
    let mut out = text("[QOS:ack] id=");
    out.append(receipt.response_id.as_str());
    out.append(" seq=");
    append_decimal(&mut out, receipt.response_seq);
    out.append(" chunk=");
    append_decimal(&mut out, receipt.chunk_index as u64);
    out.append("/");
    append_decimal(&mut out, receipt.chunk_total as u64);
    out
}

/// The probe's trace of an event acknowledgement it sent.
pub fn event_ack_line(response_id: &str, response_seq: u64) -> (r: String)
    ensures
        r@ == "[QOS:event-ack] id="@ + response_id@ + " seq="@ + decimal(response_seq as nat),
{
    let mut out = text("[QOS:event-ack] id=");
    out.append(response_id);
    out.append(" seq=");
    append_decimal(&mut out, response_seq);
    out
}

} // verus!
