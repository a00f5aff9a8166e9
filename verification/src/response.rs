use vstd::prelude::*;

use crate::bytes::copy_range;
use crate::chunking::{chunk_faults, legacy_decoded, LegacyEvent, ResponseDecoder, SessionView};
use crate::protocol::{CommandResponse, ProtocolError};
use crate::transport::{
    decode_frame, decode_result, is_transport_frame, part_view, step_completes, step_conflicts,
    step_faults, stream_key, stream_or_empty, stream_outcome, FrameKind, FrameView,
    PayloadReassembler, StreamView, TransportFrame, TransportError, FRAME_MAGIC,
    STREAM_TABLE_LEN,
};

verus! {

/// Contiguous frames a response stream must advance by before a range ACK is sent.
pub const TRANSPORT_RESPONSE_ACK_WINDOW: u8 = 1;

#[derive(Debug, Clone, Copy, PartialEq, Eq, Structural)]
pub enum TransportAckType {
    Range,
    Event,
}

#[derive(Debug, Clone, Copy, PartialEq, Eq, Structural)]
pub struct TransportAckReceipt {
    pub stream_id: u8,
    pub ack_type: TransportAckType,
    pub index: u8,
}

/// What one incoming notification produced.
///
/// `legacy` marks bytes that are not a transport frame: they are a whole JSON response
/// for the legacy decoder and are handed back unchanged in `payload`. Otherwise `payload`
/// is a logical payload that this frame completed.
#[derive(Debug, Clone, PartialEq, Eq)]
pub struct DecodedEvent {
    pub transport_ack: Option<TransportAckReceipt>,
    pub payload: Option<Vec<u8>>,
    pub transport_progress: bool,
    pub assembled_from_transport: bool,
    pub legacy: bool,
}

#[derive(Debug, Clone, PartialEq, Eq, Structural)]
pub enum DecodeError {
    Transport(TransportError),
}

struct RangeState {
    received: Vec<bool>,
    contiguous: u8,
    last_acked_contiguous: u8,
}

/// Frame indices received on a response stream, and the contiguous prefix seen and acked.
pub struct RangeView {
    pub received: Set<u8>,
    pub contiguous: u8,
    pub last_acked: u8,
}

/// Mathematical content of the decoder.
pub struct DecoderView {
    pub streams: Seq<Option<StreamView>>,
    pub ranges: Seq<Option<RangeView>>,
    pub completed: Seq<Set<u8>>,
}

pub open spec fn empty_range() -> RangeView {
    RangeView { received: Set::empty(), contiguous: 0, last_acked: 0 }
}

pub open spec fn range_or_empty(r: Option<RangeView>) -> RangeView {
    match r {
        Some(r) => r,
        None => empty_range(),
    }
}

/// The contiguous prefix reached from `c` by following received indices upwards.
pub open spec fn advance_contiguous(received: Set<u8>, c: u8) -> u8
    decreases 255 - c,
{
    if c < 255 && received.contains((c + 1) as u8) {
        advance_contiguous(received, (c + 1) as u8)
    } else {
        c
    }
}

/// Advancing reaches index 255 while 255 is received: the prefix scan never stops.
pub open spec fn range_spins(received: Set<u8>, c: u8) -> bool {
    advance_contiguous(received, c) == 255 && received.contains(255u8)
}

/// Records a frame index on a response stream; yields the range ACK index, if one is due.
pub open spec fn range_step(r: RangeView, index: u8) -> (RangeView, Option<u8>) {
    let received = r.received.insert(index);
    let c = advance_contiguous(received, r.contiguous);
    let advanced = if c >= r.last_acked {
        c - r.last_acked
    } else {
        0
    };
    if advanced < TRANSPORT_RESPONSE_ACK_WINDOW || c != index {
        (RangeView { received, contiguous: c, last_acked: r.last_acked }, None)
    } else {
        (RangeView { received, contiguous: c, last_acked: c }, Some(c))
    }
}

pub open spec fn is_response_kind(kind: FrameKind) -> bool {
    kind == FrameKind::ResponseChunk || kind == FrameKind::ResponseFinal
}

/// Range and completion bookkeeping after a reassembled frame, and the ACK it calls for.
pub open spec fn ack_step(
    ranges: Seq<Option<RangeView>>,
    completed: Seq<Set<u8>>,
    f: FrameView,
    completed_payload: bool,
) -> (Seq<Option<RangeView>>, Seq<Set<u8>>, Option<TransportAckReceipt>) {
    let sid = f.stream_id as int;
    if f.kind == FrameKind::ResponseFinal && completed_payload {
        (
            ranges.update(sid, None),
            completed.update(sid, completed[sid].insert(f.index)),
            Some(
                TransportAckReceipt {
                    stream_id: f.stream_id,
                    ack_type: TransportAckType::Event,
                    index: 0,
                },
            ),
        )
    } else if is_response_kind(f.kind) {
        let step = range_step(range_or_empty(ranges[sid]), f.index);
        (
            ranges.update(sid, Some(step.0)),
            completed,
            match step.1 {
                Some(i) => Some(
                    TransportAckReceipt {
                        stream_id: f.stream_id,
                        ack_type: TransportAckType::Range,
                        index: i,
                    },
                ),
                None => None,
            },
        )
    } else {
        (ranges, completed, None)
    }
}

/// A final response frame for a stream already completed with that final index.
pub open spec fn late_duplicate_final(completed: Seq<Set<u8>>, f: FrameView) -> bool {
    f.kind == FrameKind::ResponseFinal && completed[f.stream_id as int].contains(f.index)
}

/// Completion bookkeeping once a new response stream starts on a stream id.
pub open spec fn restart_completed(completed: Seq<Set<u8>>, f: FrameView) -> Seq<Set<u8>> {
    if f.kind == FrameKind::ResponseChunk && f.index == 1 {
        completed.update(f.stream_id as int, Set::empty())
    } else {
        completed
    }
}

/// Mathematical content of a decoded event.
pub struct EventView {
    pub transport_ack: Option<TransportAckReceipt>,
    pub payload: Option<Seq<u8>>,
    pub transport_progress: bool,
    pub assembled_from_transport: bool,
    pub legacy: bool,
}

impl View for DecodedEvent {
    type V = EventView;

    open spec fn view(&self) -> EventView {
        EventView {
            transport_ack: self.transport_ack,
            payload: part_view(self.payload),
            transport_progress: self.transport_progress,
            assembled_from_transport: self.assembled_from_transport,
            legacy: self.legacy,
        }
    }
}

pub open spec fn event_result_view(r: Result<DecodedEvent, DecodeError>) -> Result<EventView, DecodeError> {
    match r {
        Ok(ev) => Ok(ev@),
        Err(e) => Err(e),
    }
}

/// What decoding one notification does: the decoder state after it and the event (or error).
pub open spec fn decode_outcome(v: DecoderView, raw: Seq<u8>) -> (DecoderView, Result<
    EventView,
    DecodeError,
>) {
    if !(raw.len() > 0 && raw[0] == FRAME_MAGIC) {
        (
            v,
            Ok(
                EventView {
                    transport_ack: None,
                    payload: Some(raw),
                    transport_progress: false,
                    assembled_from_transport: false,
                    legacy: true,
                },
            ),
        )
    } else {
        match decode_result(raw) {
            Err(e) => (v, Err(DecodeError::Transport(e))),
            Ok(f) => if f.kind == FrameKind::Progress {
                (
                    v,
                    Ok(
                        EventView {
                            transport_ack: None,
                            payload: None,
                            transport_progress: true,
                            assembled_from_transport: false,
                            legacy: false,
                        },
                    ),
                )
            } else if late_duplicate_final(v.completed, f) {
                (
                    v,
                    Ok(
                        EventView {
                            transport_ack: Some(
                                TransportAckReceipt {
                                    stream_id: f.stream_id,
                                    ack_type: TransportAckType::Event,
                                    index: 0,
                                },
                            ),
                            payload: None,
                            transport_progress: true,
                            assembled_from_transport: false,
                            legacy: false,
                        },
                    ),
                )
            } else {
                let completed1 = restart_completed(v.completed, f);
                if !f.kind.carries_payload() {
                    let acks = ack_step(v.ranges, completed1, f, false);
                    (
                        DecoderView { streams: v.streams, ranges: acks.0, completed: acks.1 },
                        Ok(
                            EventView {
                                transport_ack: acks.2,
                                payload: None,
                                transport_progress: is_response_kind(f.kind),
                                assembled_from_transport: true,
                                legacy: false,
                            },
                        ),
                    )
                } else {
                    let k = stream_key(f);
                    if step_conflicts(stream_or_empty(v.streams[k]), f) {
                        (
                            DecoderView { streams: v.streams, ranges: v.ranges, completed: completed1 },
                            Err(DecodeError::Transport(TransportError::FinalIndexChanged)),
                        )
                    } else {
                        let outcome = stream_outcome(v.streams[k], f);
                        let acks = ack_step(v.ranges, completed1, f, outcome.1 is Some);
                        (
                            DecoderView {
                                streams: v.streams.update(k, outcome.0),
                                ranges: acks.0,
                                completed: acks.1,
                            },
                            Ok(
                                EventView {
                                    transport_ack: acks.2,
                                    payload: outcome.1,
                                    transport_progress: is_response_kind(f.kind),
                                    assembled_from_transport: true,
                                    legacy: false,
                                },
                            ),
                        )
                    }
                }
            },
        }
    }
}

pub struct TransportResponseDecoder {
    transport: PayloadReassembler,
    ranges: Vec<Option<RangeState>>,
    completed: Vec<Vec<u8>>,
    legacy: ResponseDecoder,
}

impl RangeState {
    spec fn range_view(&self) -> RangeView {
        RangeView {
            received: Set::new(|i: u8| self.received@[i as int]),
            contiguous: self.contiguous,
            last_acked: self.last_acked_contiguous,
        }
    }

    fn new() -> (r: RangeState)
        ensures
            r.received@.len() == 256,
            r.range_view() == empty_range(),
    {
        let mut received: Vec<bool> = Vec::new();
        let mut i: usize = 0;
        while i < 256
            invariant
                i <= 256,
                received@.len() == i,
                forall|j: int| 0 <= j < i ==> !#[trigger] received@[j],
            decreases 256 - i,
        {
            received.push(false);
            i = i + 1;
        }
        let r = RangeState { received, contiguous: 0, last_acked_contiguous: 0 };
        assert(r.range_view().received =~= Set::<u8>::empty());
        r
    }
}

spec fn range_slot_view(slot: Option<RangeState>) -> Option<RangeView> {
    match slot {
        Some(r) => Some(r.range_view()),
        None => None,
    }
}

spec fn index_set(indices: Vec<u8>) -> Set<u8> {
    indices@.to_set()
}

proof fn lemma_advance_bound(received: Set<u8>, c: u8)
    ensures
        advance_contiguous(received, c) >= c,
    decreases 255 - c,
{
    if c < 255 && received.contains((c + 1) as u8) {
        lemma_advance_bound(received, (c + 1) as u8);
    }
}

/// Every index from 1 through `k` has been received.
pub open spec fn prefix_received(received: Set<u8>, k: int) -> bool {
    forall|j: int| 1 <= j <= k ==> #[trigger] received.contains(j as u8)
}

/// `k` is the largest index with every index from 1 through `k` received.
pub open spec fn max_prefix(received: Set<u8>, k: int) -> bool {
    &&& prefix_received(received, k)
    &&& (k < 255 ==> !received.contains((k + 1) as u8))
}

/// The range state of a response stream after the given frame indices, from a fresh stream.
pub open spec fn range_run(indices: Seq<u8>) -> RangeView
    decreases indices.len(),
{
    if indices.len() == 0 {
        empty_range()
    } else {
        range_step(range_run(indices.drop_last()), indices.last()).0
    }
}

/// The range ACK that the last of the given frame indices calls for.
pub open spec fn range_run_ack(indices: Seq<u8>) -> Option<u8>
    recommends
        indices.len() > 0,
{
    range_step(range_run(indices.drop_last()), indices.last()).1
}

proof fn lemma_advance_reaches_max_prefix(received: Set<u8>, c: u8)
    requires
        prefix_received(received, c as int),
    ensures
        max_prefix(received, advance_contiguous(received, c) as int),
    decreases 255 - c,
{
    if c < 255 && received.contains((c + 1) as u8) {
        assert forall|j: int| 1 <= j <= c + 1 implies #[trigger] received.contains(j as u8) by {
            if j <= c {
                assert(received.contains(j as u8));
            }
        }
        lemma_advance_reaches_max_prefix(received, (c + 1) as u8);
    }
}

/// The range bookkeeping of a response stream: after any sequence of frame indices on a
/// fresh stream, the received set is exactly the indices seen, the contiguous index is the
/// largest `k` with every index from 1 through `k` received, and the last frame calls for a
/// range ACK exactly when it is itself that largest `k` and `k` passed the last acked index.
pub proof fn lemma_range_ack_follows_contiguous_prefix(indices: Seq<u8>)
    ensures
        range_run(indices).received == indices.to_set(),
        max_prefix(range_run(indices).received, range_run(indices).contiguous as int),
        range_run(indices).last_acked <= range_run(indices).contiguous,
        indices.len() > 0 ==> ({
            let before = range_run(indices.drop_last());
            let after = range_run(indices);
            range_run_ack(indices) == if after.contiguous == indices.last() && after.contiguous
                > before.last_acked {
                Some(after.contiguous)
            } else {
                None::<u8>
            }
        }),
    decreases indices.len(),
{
    if indices.len() == 0 {
        assert(indices.to_set() =~= Set::<u8>::empty());
    } else {
        let rest = indices.drop_last();
        lemma_range_ack_follows_contiguous_prefix(rest);
        let r = range_run(rest);
        let received = r.received.insert(indices.last());
        assert(prefix_received(received, r.contiguous as int));
        lemma_advance_reaches_max_prefix(received, r.contiguous);
        lemma_advance_bound(received, r.contiguous);
        assert(indices.to_set() =~= rest.to_set().insert(indices.last())) by {
            assert(indices =~= rest.push(indices.last()));
            vstd::seq_lib::lemma_seq_contains_after_push(rest, indices.last(), indices.last());
            assert forall|x: u8| indices.to_set().contains(x) <==> rest.to_set().insert(
                indices.last(),
            ).contains(x) by {
                if indices.contains(x) {
                    let i = choose|i: int| 0 <= i < indices.len() && indices[i] == x;
                    if i < rest.len() {
                        assert(rest[i] == x);
                    }
                }
                if rest.contains(x) {
                    let i = choose|i: int| 0 <= i < rest.len() && rest[i] == x;
                    assert(indices[i] == x);
                }
                if x == indices.last() {
                    assert(indices[indices.len() - 1] == x);
                }
            }
        }
    }
}

impl TransportResponseDecoder {
    pub closed spec fn view_decoder(&self) -> DecoderView {
        DecoderView {
            streams: self.transport@,
            ranges: self.ranges@.map_values(|slot: Option<RangeState>| range_slot_view(slot)),
            completed: self.completed@.map_values(|indices: Vec<u8>| index_set(indices)),
        }
    }

    pub closed spec fn wf(&self) -> bool {
        &&& self.transport.wf()
        &&& self.transport@.len() == STREAM_TABLE_LEN
        &&& self.ranges@.len() == 256
        &&& self.completed@.len() == 256
        &&& forall|k: int|
            0 <= k < 256 ==> (#[trigger] self.ranges@[k] matches Some(r) ==> r.received@.len()
                == 256)
    }

    /// Whether decoding `raw` would hit an input the decoder cannot finish on: a stream
    /// completing with a fragment missing, or a range scan that reaches index 255 while
    /// 255 is received.
    pub open spec fn decode_faults(&self, raw: Seq<u8>) -> bool {
        raw.len() > 0 && raw[0] == FRAME_MAGIC && match decode_result(raw) {
            Ok(f) => {
                let v = self.view_decoder();
                f.kind != FrameKind::Progress && !late_duplicate_final(v.completed, f) && {
                    let s = stream_or_empty(v.streams[stream_key(f)]);
                    let conflicts = f.kind.carries_payload() && step_conflicts(s, f);
                    let completes = f.kind.carries_payload() && !conflicts && step_completes(
                        s,
                        f,
                    );
                    ||| (f.kind.carries_payload() && !conflicts && step_faults(s, f))
                    ||| (!conflicts && is_response_kind(f.kind) && !(f.kind
                        == FrameKind::ResponseFinal && completes) && {
                        let r = range_or_empty(v.ranges[f.stream_id as int]);
                        range_spins(r.received.insert(f.index), r.contiguous)
                    })
                }
            },
            Err(_) => false,
        }
    }

    pub fn new() -> (d: TransportResponseDecoder)
        ensures
            d.wf(),
            forall|k: int| 0 <= k < STREAM_TABLE_LEN ==> #[trigger] d.view_decoder().streams[k] is None,
            forall|k: int| 0 <= k < 256 ==> #[trigger] d.view_decoder().ranges[k] is None,
            forall|k: int| 0 <= k < 256 ==> #[trigger] d.view_decoder().completed[k] == Set::<u8>::empty(),
            d.legacy_sessions() == Seq::<SessionView>::empty(),
    {
        let transport = PayloadReassembler::new();
        let mut ranges: Vec<Option<RangeState>> = Vec::new();
        let mut completed: Vec<Vec<u8>> = Vec::new();
        let mut i: usize = 0;
        while i < 256
            invariant
                i <= 256,
                ranges@.len() == i,
                completed@.len() == i,
                forall|j: int| 0 <= j < i ==> #[trigger] ranges@[j] is None,
                forall|j: int| 0 <= j < i ==> #[trigger] completed@[j]@ == Seq::<u8>::empty(),
            decreases 256 - i,
        {
            ranges.push(None);
            completed.push(Vec::new());
            i = i + 1;
        }
        let d = TransportResponseDecoder { transport, ranges, completed, legacy: ResponseDecoder::new() };
        assert forall|k: int| 0 <= k < 256 implies #[trigger] d.view_decoder().completed[k]
            == Set::<u8>::empty() by {
            assert(d.completed@[k]@.to_set() =~= Set::<u8>::empty());
        }
        d
    }

    fn completed_contains(&self, stream_id: u8, index: u8) -> (b: bool)
        requires
            self.wf(),
        ensures
            b == self.view_decoder().completed[stream_id as int].contains(index),
    {
        let list = &self.completed[stream_id as usize];
        assert(self.view_decoder().completed[stream_id as int] == list@.to_set());
        let mut i: usize = 0;
        #[verifier::loop_isolation(false)]
        while i < list.len()
            invariant
                i <= list@.len(),
                forall|j: int| 0 <= j < i ==> #[trigger] list@[j] != index,
            decreases list@.len() - i,
        {
            if list[i] == index {
                assert(list@.contains(index));
                assert(list@.to_set().contains(index));
                return true;
            }
            i = i + 1;
        }
        assert(!list@.contains(index));
        false
    }

    /// Whether `decode_event` cannot finish on `raw` (see `decode_faults`).
    pub fn decode_would_fail(&self, raw: &[u8]) -> (b: bool)
        requires
            self.wf(),
        ensures
            b == self.decode_faults(raw@),
    {
        if !is_transport_frame(raw) {
            return false;
        }
        let frame = match decode_frame(raw) {
            Ok(frame) => frame,
            Err(_) => return false,
        };
        if frame.kind == FrameKind::Progress {
            return false;
        }
        if frame.kind == FrameKind::ResponseFinal && self.completed_contains(
            frame.stream_id,
            frame.index,
        ) {
            return false;
        }
        let ghost f = frame@;
        let ghost v = self.view_decoder();
        if self.transport.accept_would_fault(raw) {
            return true;
        }
        let conflicts = self.transport.accept_would_conflict(raw);
        let completes = self.transport.accept_would_complete(raw);
        if conflicts || !(frame.kind == FrameKind::ResponseChunk || frame.kind
            == FrameKind::ResponseFinal) {
            return false;
        }
        if frame.kind == FrameKind::ResponseFinal && completes {
            return false;
        }
        let sid = frame.stream_id as usize;
        let ghost r = range_or_empty(v.ranges[sid as int]);
        let mut c: u8 = match &self.ranges[sid] {
            Some(state) => state.contiguous,
            None => 0u8,
        };
        let ghost received = r.received.insert(frame.index);
        #[verifier::loop_isolation(false)]
        loop
            invariant
                self.wf(),
                sid < 256,
                advance_contiguous(received, c) == advance_contiguous(received, r.contiguous),
                received == r.received.insert(frame.index),
                r == range_or_empty(self.view_decoder().ranges[sid as int]),
            decreases 255 - c,
        {
            if c == 255 {
                return self.range_holds(sid, 255, frame.index);
            }
            if !self.range_holds(sid, c + 1, frame.index) {
                assert(advance_contiguous(received, c) == c);
                return false;
            }
            c = c + 1;
        }
    }


    /// The legacy decoder's sessions of responses being assembled from JSON chunks.
    pub closed spec fn legacy_sessions(&self) -> Seq<SessionView> {
        self.legacy.assembler@
    }

    /// Whether `decode_legacy_response` cannot take `response` (see `chunk_faults`).
    pub fn legacy_would_fault(&self, response: &CommandResponse) -> (b: bool)
        ensures
            b == chunk_faults(self.legacy_sessions(), *response),
    {
        self.legacy.assembler.add_would_fault(response)
    }

    /// Decodes a notification that `decode_event` handed back as a whole JSON document,
    /// once the caller has parsed it as a response: its chunk receipt, and what it does to
    /// the legacy chunk assembly. The transport state is left as it is.
    pub fn decode_legacy_response(&mut self, response: CommandResponse) -> (r: Result<
        LegacyEvent,
        ProtocolError,
    >)
        requires
            old(self).wf(),
            !chunk_faults(old(self).legacy_sessions(), response),
        ensures
            final(self).wf(),
            final(self).view_decoder() == old(self).view_decoder(),
            legacy_decoded(old(self).legacy_sessions(), response, final(self).legacy_sessions(), r),
    {
        self.legacy.decode_response(response)
    }

    /// Decodes one notification: a transport frame is fed to the reassembler and answered
    /// with the ACK it calls for; any other bytes are handed back as one JSON document for
    /// `decode_legacy_response`.
    pub fn decode_event(&mut self, raw: &[u8]) -> (r: Result<DecodedEvent, DecodeError>)
        requires
            old(self).wf(),
            !old(self).decode_faults(raw@),
        ensures
            final(self).wf(),
            final(self).legacy_sessions() == old(self).legacy_sessions(),
            (final(self).view_decoder(), event_result_view(r)) == decode_outcome(
                old(self).view_decoder(),
                raw@,
            ),
    {
        let ghost v = self.view_decoder();
        if !is_transport_frame(raw) {
            let bytes = copy_range(raw, 0, raw.len());
            assert(bytes@ =~= raw@);
            return Ok(
                DecodedEvent {
                    transport_ack: None,
                    payload: Some(bytes),
                    transport_progress: false,
                    assembled_from_transport: false,
                    legacy: true,
                },
            );
        }
        let frame = match decode_frame(raw) {
            Ok(frame) => frame,
            Err(e) => return Err(DecodeError::Transport(e)),
        };
        let ghost f = frame@;
        if frame.kind == FrameKind::Progress {
            return Ok(
                DecodedEvent {
                    transport_ack: None,
                    payload: None,
                    transport_progress: true,
                    assembled_from_transport: false,
                    legacy: false,
                },
            );
        }
        if frame.kind == FrameKind::ResponseFinal && self.completed_contains(
            frame.stream_id,
            frame.index,
        ) {
            return Ok(
                DecodedEvent {
                    transport_ack: Some(
                        TransportAckReceipt {
                            stream_id: frame.stream_id,
                            ack_type: TransportAckType::Event,
                            index: 0,
                        },
                    ),
                    payload: None,
                    transport_progress: true,
                    assembled_from_transport: false,
                    legacy: false,
                },
            );
        }
        if frame.kind == FrameKind::ResponseChunk && frame.index == 1 {
            let fresh: Vec<u8> = Vec::new();
            assert(fresh@.to_set() =~= Set::<u8>::empty());
            self.completed.set(frame.stream_id as usize, fresh);
            assert(self.view_decoder().completed =~= restart_completed(v.completed, f));
        } else {
            assert(self.view_decoder().completed =~= restart_completed(v.completed, f));
        }
        let ghost v1 = self.view_decoder();
        assert(!self.transport.accept_faults(raw@));
        let event = match self.transport.accept_frame(raw) {
            Ok(event) => event,
            Err(e) => {
                assert(self.view_decoder().ranges =~= v.ranges);
                return Err(DecodeError::Transport(e));
            },
        };
        let ghost v2 = self.view_decoder();
        assert(v2.ranges == v1.ranges);
        assert(v2.completed == v1.completed);
        let completed_payload = event.payload.is_some();
        let ack = self.transport_ack_for_event(&event.frame, completed_payload);
        let transport_progress = event.frame.kind == FrameKind::ResponseChunk || event.frame.kind
            == FrameKind::ResponseFinal;
        Ok(
            DecodedEvent {
                transport_ack: ack,
                payload: event.payload,
                transport_progress,
                assembled_from_transport: true,
                legacy: false,
            },
        )
    }

    fn transport_ack_for_event(&mut self, frame: &TransportFrame, completed_payload: bool) -> (ack:
        Option<TransportAckReceipt>)
        requires
            old(self).wf(),
            !(is_response_kind(frame.kind) && !(frame.kind == FrameKind::ResponseFinal
                && completed_payload) && {
                let r = range_or_empty(old(self).view_decoder().ranges[frame.stream_id as int]);
                range_spins(r.received.insert(frame.index), r.contiguous)
            }),
        ensures
            final(self).wf(),
            final(self).legacy_sessions() == old(self).legacy_sessions(),
            final(self).view_decoder().streams == old(self).view_decoder().streams,
            (final(self).view_decoder().ranges, final(self).view_decoder().completed, ack)
                == ack_step(
                old(self).view_decoder().ranges,
                old(self).view_decoder().completed,
                frame@,
                completed_payload,
            ),
    {
        let ghost v = self.view_decoder();
        let sid = frame.stream_id as usize;
        if frame.kind == FrameKind::ResponseFinal && completed_payload {
            self.ranges.set(sid, None);
            if !self.completed_contains(frame.stream_id, frame.index) {
                let mut list: Vec<u8> = Vec::new();
                self.completed.set_and_swap(sid, &mut list);
                let ghost before = list@;
                list.push(frame.index);
                proof {
                    assert forall|x: u8| list@.contains(x) <==> (before.contains(x) || x
                        == frame.index) by {
                        if before.contains(x) {
                            let i = choose|i: int| 0 <= i < before.len() && before[i] == x;
                            assert(list@[i] == x);
                        }
                        if list@.contains(x) {
                            let i = choose|i: int| 0 <= i < list@.len() && list@[i] == x;
                            if i < before.len() {
                                assert(before[i] == x);
                            }
                        }
                        if x == frame.index {
                            assert(list@[before.len() as int] == x);
                        }
                    }
                    assert(list@.to_set() =~= before.to_set().insert(frame.index));
                }
                self.completed.set(sid, list);
            } else {
                assert(v.completed[sid as int].insert(frame.index) =~= v.completed[sid as int]);
            }
            assert(self.view_decoder().ranges =~= v.ranges.update(sid as int, None));
            assert(self.view_decoder().completed =~= v.completed.update(
                sid as int,
                v.completed[sid as int].insert(frame.index),
            ));
            return Some(
                TransportAckReceipt {
                    stream_id: frame.stream_id,
                    ack_type: TransportAckType::Event,
                    index: 0,
                },
            );
        }
        if !(frame.kind == FrameKind::ResponseChunk || frame.kind == FrameKind::ResponseFinal) {
            return None;
        }
        let ghost r = range_or_empty(v.ranges[sid as int]);
        let mut slot: Option<RangeState> = None;
        self.ranges.set_and_swap(sid, &mut slot);
        let mut state = match slot {
            Some(state) => state,
            None => RangeState::new(),
        };
        assert(state.range_view() == r);
        state.received.set(frame.index as usize, true);
        let ghost received = r.received.insert(frame.index);
        assert(state.range_view().received =~= received);
        let ghost start = state.contiguous;
        loop
            invariant
                state.received@.len() == 256,
                state.range_view().received == received,
                advance_contiguous(received, state.contiguous) == advance_contiguous(
                    received,
                    start,
                ),
                !range_spins(received, start),
                state.last_acked_contiguous == r.last_acked,
            ensures
                state.last_acked_contiguous == r.last_acked,
                state.received@.len() == 256,
                state.range_view().received == received,
                advance_contiguous(received, state.contiguous) == advance_contiguous(
                    received,
                    start,
                ),
                advance_contiguous(received, state.contiguous) == state.contiguous,
            decreases 255 - state.contiguous,
        {
            let next: u8 = if state.contiguous == 255 {
                255
            } else {
                state.contiguous + 1
            };
            assert(state.range_view().received.contains(next) == state.received@[next as int]);
            if !state.received[next as usize] {
                break;
            }
            state.contiguous = next;
        }
        assert(advance_contiguous(received, state.contiguous) == state.contiguous);
        let advanced: u8 = if state.contiguous >= state.last_acked_contiguous {
            state.contiguous - state.last_acked_contiguous
        } else {
            0
        };
        let ack = if advanced < TRANSPORT_RESPONSE_ACK_WINDOW || state.contiguous != frame.index {
            None
        } else {
            state.last_acked_contiguous = state.contiguous;
            Some(
                TransportAckReceipt {
                    stream_id: frame.stream_id,
                    ack_type: TransportAckType::Range,
                    index: state.contiguous,
                },
            )
        };
        let ghost after = state.range_view();
        self.ranges.set(sid, Some(state));
        assert(after == range_step(r, frame.index).0);
        assert(self.view_decoder().ranges =~= v.ranges.update(sid as int, Some(after)));
        assert(self.view_decoder().completed =~= v.completed);
        ack
    }

    /// Whether index `i` is in the received set of stream `sid` once `index` is added.
    fn range_holds(&self, sid: usize, i: u8, index: u8) -> (b: bool)
        requires
            self.wf(),
            sid < 256,
        ensures
            b == range_or_empty(self.view_decoder().ranges[sid as int]).received.insert(
                index,
            ).contains(i),
    {
        if i == index {
            return true;
        }
        match &self.ranges[sid] {
            Some(state) => state.received[i as usize],
            None => false,
        }
    }
}

} // verus!
