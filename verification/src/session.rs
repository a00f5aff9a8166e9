use vstd::prelude::*;
use vstd::string::StrSliceExecFns;

use crate::cli_text::ascii_lower;
use crate::protocol::{AckType, CommandResponse, LinkAckArgs};
use crate::receipt::ChunkReceipt;
use crate::response::{TransportAckReceipt, TransportAckType};
use crate::text::{text, text_eq};
use crate::trace::ascii_lowered;
use crate::transport::FrameKind;

verus! {

/// `pattern` occurs in `s` at some position.
pub open spec fn occurs_in(s: Seq<char>, pattern: Seq<char>) -> bool {
    exists|i: int| 0 <= i <= s.len() - pattern.len() && #[trigger] s.subrange(i, i + pattern.len()) == pattern
}

/// Error texts that mean the peripheral is already gone, in any ASCII letter case.
pub open spec fn already_disconnected_text(message: Seq<char>) -> bool {
    let lower = ascii_lowered(message);
    occurs_in(lower, "not connected"@) || occurs_in(lower, "already disconnected"@) || occurs_in(
        lower,
        "peripheral disconnected"@,
    )
}

/// Whether `pattern` occurs in `message` once its ASCII letters are made lower-case;
/// `pattern` is lower-case.
fn occurs_lowered(message: &str, pattern: &str) -> (r: bool)
    ensures
        r == occurs_in(ascii_lowered(message@), pattern@),
{
    let ghost lower = ascii_lowered(message@);
    let n = message.unicode_len();
    let m = pattern.unicode_len();
    if m > n {
        assert forall|i: int| 0 <= i <= lower.len() - pattern@.len() implies #[trigger] lower.subrange(
            i,
            i + pattern@.len(),
        ) != pattern@ by {}
        return false;
    }
    let mut i: usize = 0;
    while i <= n - m
        invariant
            n == message@.len(),
            m == pattern@.len(),
            m <= n,
            lower == ascii_lowered(message@),
            i <= n - m + 1,
            forall|k: int| 0 <= k < i ==> #[trigger] lower.subrange(k, k + m) != pattern@,
        decreases n - m + 1 - i,
    {
        let mut j: usize = 0;
        let mut same = true;
        while j < m
            invariant
                n == message@.len(),
                m == pattern@.len(),
                i + m <= n,
                j <= m,
                lower == ascii_lowered(message@),
                same <==> forall|k: int| 0 <= k < j ==> lower[i + k] == pattern@[k],
            decreases m - j,
        {
            let c = message.get_char(i + j);
            let p = pattern.get_char(j);
            let matches = if 'A' <= c && c <= 'Z' {
                let code: u32 = c as u32 + 32;
                proof {
                    assert(ascii_lower(c) as u32 == code);
                }
                code == p as u32
            } else {
                c == p
            };
            assert(matches == (lower[i + j] == p));
            if !matches {
                same = false;
            }
            j = j + 1;
        }
        if same {
            assert(lower.subrange(i as int, i + m) =~= pattern@);
            return true;
        }
        proof {
            let k = choose|k: int| 0 <= k < m && lower[i + k] != pattern@[k];
            assert(lower.subrange(i as int, i + m)[k] != pattern@[k]);
        }
        i = i + 1;
    }
    false
}

/// Whether an error only says that the peripheral is disconnected already.
pub fn is_already_disconnected_error(message: &str) -> (r: bool)
    ensures
        r == already_disconnected_text(message@),
{
    occurs_lowered(message, "not connected") || occurs_lowered(message, "already disconnected")
        || occurs_lowered(message, "peripheral disconnected")
}

/// Hands out transport stream identifiers: 1 to 255 in turn, never 0.
pub struct StreamIdAllocator {
    next: u8,
}

impl StreamIdAllocator {
    /// The identifier the next call hands out, before skipping 0.
    pub closed spec fn upcoming(&self) -> u8 {
        self.next
    }

    /// The identifier handed out after `last`.
    pub open spec fn successor(last: u8) -> u8 {
        if last == 255 {
            1
        } else {
            (last + 1) as u8
        }
    }

    pub fn new() -> (s: StreamIdAllocator)
        ensures
            s.upcoming() == 1,
    {
        StreamIdAllocator { next: 1 }
    }

    /// The next stream identifier.
    pub fn next_transport_stream_id(&mut self) -> (id: u8)
        ensures
            id != 0,
            id == (if old(self).upcoming() == 0 { 1 } else { old(self).upcoming() }),
            final(self).upcoming() == (if id == 255 { 0 } else { (id + 1) as u8 }),
    {
        let id = self.next;
        self.next = if self.next == 255 {
            0
        } else {
            self.next + 1
        };
        if id == 0 {
            let again = self.next;
            self.next = self.next + 1;
            again
        } else {
            id
        }
    }
}

/// Two calls in a row hand out identifiers in turn: after `255` comes `1`.
pub proof fn lemma_stream_ids_follow_in_turn(first: u8, after_first: u8, second: u8)
    requires
        first != 0,
        after_first == (if first == 255 { 0 } else { (first + 1) as u8 }),
        second == (if after_first == 0 { 1 } else { after_first }),
    ensures
        second == StreamIdAllocator::successor(first),
        second != first,
{
}

/// What waiting for a response makes of one notification.
pub enum EventWaitOutcome {
    Response(CommandResponse),
    Progress,
}

/// One decoded notification, with the response parsed when it completed one.
pub struct ReceivedEvent {
    pub chunk_receipt: Option<ChunkReceipt>,
    pub transport_ack: Option<TransportAckReceipt>,
    pub response: Option<CommandResponse>,
    pub transport_progress: bool,
    pub assembled_from_chunks: bool,
    pub assembled_from_transport: bool,
}

/// How waiting goes on after a notification.
#[derive(Clone, Copy, Debug, PartialEq, Eq, Structural)]
pub enum WaitStep {
    KeepWaiting,
    Progress,
    Response,
}

/// What to do for one notification, in order: send the transport acknowledgement, send
/// the chunk acknowledgement, send an event acknowledgement for the response, trace the
/// assembled response, then go on as `step` says.
pub struct NotificationPlan {
    pub transport_ack: Option<TransportAckReceipt>,
    pub chunk_ack: Option<LinkAckArgs>,
    pub event_ack: Option<LinkAckArgs>,
    pub trace_assembled: bool,
    pub step: WaitStep,
}

/// The link acknowledgement of a chunk.
pub fn chunk_link_ack(receipt: &ChunkReceipt) -> (a: LinkAckArgs)
    ensures
        a.ack_type == AckType::Chunk,
        a.response_seq == receipt.response_seq,
        a.chunk_index == Some(receipt.chunk_index),
{
    LinkAckArgs {
        ack_type: AckType::Chunk,
        response_seq: receipt.response_seq,
        chunk_index: Some(receipt.chunk_index),
    }
}

/// The link acknowledgement of a final response.
pub fn event_link_ack(response_seq: u64) -> (a: LinkAckArgs)
    ensures
        a.ack_type == AckType::Event,
        a.response_seq == response_seq,
        a.chunk_index is None,
{
    LinkAckArgs { ack_type: AckType::Event, response_seq, chunk_index: None }
}

/// Decides how a notification is answered: every transport acknowledgement and chunk
/// receipt is sent; a completed response is acknowledged as an event unless the transport
/// acknowledgement already was one, and ends the wait; without a response, transport
/// progress ends the wait as progress, and anything else keeps waiting.
pub fn plan_notification(event: &ReceivedEvent) -> (p: NotificationPlan)
    ensures
        p.transport_ack == event.transport_ack,
        match event.chunk_receipt {
            Some(c) => p.chunk_ack matches Some(a) && a.ack_type == AckType::Chunk && a.response_seq
                == c.response_seq && a.chunk_index == Some(c.chunk_index),
            None => p.chunk_ack is None,
        },
        match event.response {
            None => p.event_ack is None && !p.trace_assembled && p.step == (if event.transport_progress {
                WaitStep::Progress
            } else {
                WaitStep::KeepWaiting
            }),
            Some(r) => {
                &&& p.step == WaitStep::Response
                &&& p.trace_assembled == (event.assembled_from_chunks || event.assembled_from_transport)
                &&& if event.transport_ack matches Some(t) && t.ack_type == TransportAckType::Event {
                    p.event_ack is None
                } else {
                    p.event_ack matches Some(a) && a.ack_type == AckType::Event && a.response_seq
                        == r.seq && a.chunk_index is None
                }
            },
        },
{
    let chunk_ack = match &event.chunk_receipt {
        Some(c) => Some(chunk_link_ack(c)),
        None => None,
    };
    let acknowledged_by_transport = match event.transport_ack {
        Some(t) => match t.ack_type {
            TransportAckType::Event => true,
            TransportAckType::Range => false,
        },
        None => false,
    };
    match &event.response {
        None => NotificationPlan {
            transport_ack: event.transport_ack,
            chunk_ack,
            event_ack: None,
            trace_assembled: false,
            step: if event.transport_progress {
                WaitStep::Progress
            } else {
                WaitStep::KeepWaiting
            },
        },
        Some(r) => NotificationPlan {
            transport_ack: event.transport_ack,
            chunk_ack,
            event_ack: if acknowledged_by_transport {
                None
            } else {
                Some(event_link_ack(r.seq))
            },
            trace_assembled: event.assembled_from_chunks || event.assembled_from_transport,
            step: WaitStep::Response,
        },
    }
}

/// How many times a request is sent before it is given up as not taken up.
pub const REQUEST_ACCEPT_RETRIES: usize = 3;

/// The longest wait, in seconds, for a sent request to be taken up.
pub const REQUEST_ACCEPT_TIMEOUT_SECS: u64 = 3;

/// How long to wait for a sent request to be taken up, under an overall `timeout_secs`.
pub fn accept_wait_secs(timeout_secs: u64) -> (r: u64)
    ensures
        r == if timeout_secs < REQUEST_ACCEPT_TIMEOUT_SECS {
            timeout_secs
        } else {
            REQUEST_ACCEPT_TIMEOUT_SECS
        },
{
    if timeout_secs < REQUEST_ACCEPT_TIMEOUT_SECS {
        timeout_secs
    } else {
        REQUEST_ACCEPT_TIMEOUT_SECS
    }
}

/// What one wait for a sent request to be taken up brought.
pub enum AcceptWait {
    Progress,
    Response(CommandResponse),
    Failed(String),
}

/// What follows a wait for a sent request to be taken up.
pub enum AcceptDecision {
    /// Taken up: with its first response, or with transport progress only.
    Accepted(Option<CommandResponse>),
    /// Send the request again; `last_error` is the latest failed wait, if any.
    Resend { last_error: Option<String> },
    /// Not taken up after the last attempt, for this reason.
    GiveUp(String),
}

pub open spec fn opt_text(o: Option<String>) -> Option<Seq<char>> {
    match o {
        Some(s) => Some(s@),
        None => None,
    }
}

/// After attempt `attempt` went by without the request being taken up, with `error` the
/// latest failed wait: another attempt, or giving up with that error.
pub open spec fn goes_on(d: AcceptDecision, attempt: usize, error: Option<String>) -> bool {
    if attempt < REQUEST_ACCEPT_RETRIES {
        d matches AcceptDecision::Resend { last_error } && opt_text(last_error) == opt_text(error)
    } else {
        d matches AcceptDecision::GiveUp(m) && m@ == match error {
            Some(e) => e@,
            None => "request was not accepted"@,
        }
    }
}

/// Decides, after attempt `attempt` of sending request `request_id`, from what the wait
/// brought: transport progress, or a response to this request, means it was taken up; a
/// response to another request is passed over and a failed wait remembered, and the
/// request is sent again until the attempts run out.
pub fn accept_decision(request_id: &str, attempt: usize, last_error: Option<String>, wait: AcceptWait) -> (d: AcceptDecision)
    requires
        1 <= attempt <= REQUEST_ACCEPT_RETRIES,
    ensures
        match wait {
            AcceptWait::Progress => d matches AcceptDecision::Accepted(None),
            AcceptWait::Response(r) => if r.id@ == request_id@ {
                d matches AcceptDecision::Accepted(Some(x)) && x == r
            } else {
                goes_on(d, attempt, last_error)
            },
            AcceptWait::Failed(e) => goes_on(d, attempt, Some(e)),
        },
        attempt == REQUEST_ACCEPT_RETRIES ==> !(d is Resend),
{
    let error = match wait {
        AcceptWait::Progress => {
            return AcceptDecision::Accepted(None);
        },
        AcceptWait::Response(r) => {
            if text_eq(r.id.as_str(), request_id) {
                return AcceptDecision::Accepted(Some(r));
            }
            last_error
        },
        AcceptWait::Failed(e) => Some(e),
    };
    if attempt < REQUEST_ACCEPT_RETRIES {
        AcceptDecision::Resend { last_error: error }
    } else {
        match error {
            Some(e) => AcceptDecision::GiveUp(e),
            None => AcceptDecision::GiveUp(text("request was not accepted")),
        }
    }
}

/// Whether `response` ends the run of request `request_id`: it answers that request and
/// is its final response.
pub fn ends_request(request_id: &str, response: &CommandResponse) -> (r: bool)
    ensures
        r == (response.id@ == request_id@ && response.final_flag),
{
    text_eq(response.id.as_str(), request_id) && response.final_flag
}

/// The frame kind that carries a transport acknowledgement of this type.
pub fn transport_ack_frame_kind(ack_type: TransportAckType) -> (k: FrameKind)
    ensures
        k == match ack_type {
            TransportAckType::Range => FrameKind::AckRange,
            TransportAckType::Event => FrameKind::AckEvent,
        },
{
    match ack_type {
        TransportAckType::Range => FrameKind::AckRange,
        TransportAckType::Event => FrameKind::AckEvent,
    }
}

} // verus!
