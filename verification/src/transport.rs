use vstd::prelude::*;

use crate::bytes::{append_bytes, copy_range};

verus! {

/// First byte of every V2 transport frame.
pub const FRAME_MAGIC: u8 = 0x59;

/// Transport frame format version carried in the high nibble of byte 1.
pub const FRAME_VERSION: u8 = 2;

/// Conservative BLE write/notify size that every frame must fit in.
pub const FRAME_BUDGET: usize = 20;

/// Bytes of header in front of every frame payload.
pub const FRAME_HEADER_LEN: usize = 4;

/// Smallest frame budget that still leaves room for one payload byte.
pub const MIN_FRAME_LEN: usize = 5;

/// Largest payload one frame can carry (`FRAME_BUDGET - FRAME_HEADER_LEN`).
pub const MAX_FRAME_PAYLOAD_LEN: usize = 16;

/// Largest logical payload one stream can carry (255 frames of 16 bytes).
pub const MAX_LOGICAL_PAYLOAD_LEN: usize = 4080;

#[derive(Debug, Clone, Copy, PartialEq, Eq, Structural, Hash)]
pub enum FrameKind {
    RequestChunk,
    RequestFinal,
    ResponseChunk,
    ResponseFinal,
    AckRange,
    AckEvent,
    Reset,
    Progress,
}

/// The kind with the given wire code, if there is one.
pub open spec fn kind_of_code(code: u8) -> Option<FrameKind> {
    if code == 1 {
        Some(FrameKind::RequestChunk)
    } else if code == 2 {
        Some(FrameKind::RequestFinal)
    } else if code == 3 {
        Some(FrameKind::ResponseChunk)
    } else if code == 4 {
        Some(FrameKind::ResponseFinal)
    } else if code == 5 {
        Some(FrameKind::AckRange)
    } else if code == 6 {
        Some(FrameKind::AckEvent)
    } else if code == 7 {
        Some(FrameKind::Reset)
    } else if code == 8 {
        Some(FrameKind::Progress)
    } else {
        None
    }
}

#[derive(Debug, Clone, Copy, PartialEq, Eq, Structural, Hash)]
pub enum PayloadGroup {
    Request,
    Response,
}

impl FrameKind {
    /// Wire code of the kind, in the low nibble of header byte 1.
    pub open spec fn code(self) -> u8 {
        match self {
            FrameKind::RequestChunk => 1,
            FrameKind::RequestFinal => 2,
            FrameKind::ResponseChunk => 3,
            FrameKind::ResponseFinal => 4,
            FrameKind::AckRange => 5,
            FrameKind::AckEvent => 6,
            FrameKind::Reset => 7,
            FrameKind::Progress => 8,
        }
    }

    pub open spec fn carries_payload(self) -> bool {
        match self {
            FrameKind::RequestChunk | FrameKind::RequestFinal | FrameKind::ResponseChunk
            | FrameKind::ResponseFinal => true,
            _ => false,
        }
    }

    pub open spec fn acknowledges(self) -> bool {
        match self {
            FrameKind::AckRange | FrameKind::AckEvent => true,
            _ => false,
        }
    }

    pub open spec fn ends_stream(self) -> bool {
        match self {
            FrameKind::RequestFinal | FrameKind::ResponseFinal => true,
            _ => false,
        }
    }

    /// The payload group of a payload-carrying kind.
    pub open spec fn group(self) -> PayloadGroup {
        match self {
            FrameKind::RequestChunk | FrameKind::RequestFinal => PayloadGroup::Request,
            _ => PayloadGroup::Response,
        }
    }

    pub fn wire(self) -> (code: u8)
        ensures
            code == self.code(),
            1 <= code <= 8,
            kind_of_code(code) == Some(self),
    {
        match self {
            FrameKind::RequestChunk => 1,
            FrameKind::RequestFinal => 2,
            FrameKind::ResponseChunk => 3,
            FrameKind::ResponseFinal => 4,
            FrameKind::AckRange => 5,
            FrameKind::AckEvent => 6,
            FrameKind::Reset => 7,
            FrameKind::Progress => 8,
        }
    }

    pub fn from_wire(value: u8) -> (r: Result<FrameKind, TransportError>)
        ensures
            r == (match kind_of_code(value) {
                Some(kind) => Ok(kind),
                None => Err(TransportError::BadKind(value)),
            }),
            r matches Ok(kind) ==> kind.code() == value,
    {
        match value {
            1 => Ok(FrameKind::RequestChunk),
            2 => Ok(FrameKind::RequestFinal),
            3 => Ok(FrameKind::ResponseChunk),
            4 => Ok(FrameKind::ResponseFinal),
            5 => Ok(FrameKind::AckRange),
            6 => Ok(FrameKind::AckEvent),
            7 => Ok(FrameKind::Reset),
            8 => Ok(FrameKind::Progress),
            _ => Err(TransportError::BadKind(value)),
        }
    }

    #[verifier::when_used_as_spec(carries_payload)]
    pub fn is_payload(self) -> (b: bool)
        returns
            self.carries_payload(),
    {
        match self {
            FrameKind::RequestChunk | FrameKind::RequestFinal | FrameKind::ResponseChunk
            | FrameKind::ResponseFinal => true,
            _ => false,
        }
    }

    #[verifier::when_used_as_spec(acknowledges)]
    pub fn is_ack(self) -> (b: bool)
        returns
            self.acknowledges(),
    {
        match self {
            FrameKind::AckRange | FrameKind::AckEvent => true,
            _ => false,
        }
    }

    #[verifier::when_used_as_spec(ends_stream)]
    pub fn final_frame(self) -> (b: bool)
        returns
            self.ends_stream(),
    {
        match self {
            FrameKind::RequestFinal | FrameKind::ResponseFinal => true,
            _ => false,
        }
    }

    pub fn payload_group(self) -> (r: Result<PayloadGroup, TransportError>)
        ensures
            r == (if self.carries_payload() {
                Ok(self.group())
            } else {
                Err(TransportError::BadKind(self.code()))
            }),
    {
        match self {
            FrameKind::RequestChunk | FrameKind::RequestFinal => Ok(PayloadGroup::Request),
            FrameKind::ResponseChunk | FrameKind::ResponseFinal => Ok(PayloadGroup::Response),
            _ => Err(TransportError::BadKind(self.wire())),
        }
    }
}

/// The payload kind of a group, for a middle fragment or for the last one.
pub open spec fn fragment_kind(group: PayloadGroup, last: bool) -> FrameKind {
    match (group, last) {
        (PayloadGroup::Request, false) => FrameKind::RequestChunk,
        (PayloadGroup::Request, true) => FrameKind::RequestFinal,
        (PayloadGroup::Response, false) => FrameKind::ResponseChunk,
        (PayloadGroup::Response, true) => FrameKind::ResponseFinal,
    }
}

#[derive(Debug, Clone, PartialEq, Eq)]
pub struct TransportFrame {
    pub kind: FrameKind,
    pub stream_id: u8,
    pub index: u8,
    pub final_frame: bool,
    pub payload: Vec<u8>,
}

/// Mathematical content of a transport frame.
pub struct FrameView {
    pub kind: FrameKind,
    pub stream_id: u8,
    pub index: u8,
    pub final_frame: bool,
    pub payload: Seq<u8>,
}

impl View for TransportFrame {
    type V = FrameView;

    open spec fn view(&self) -> FrameView {
        FrameView {
            kind: self.kind,
            stream_id: self.stream_id,
            index: self.index,
            final_frame: self.final_frame,
            payload: self.payload@,
        }
    }
}

#[derive(Debug, Clone, PartialEq, Eq, Structural)]
pub enum TransportError {
    TooShort,
    FrameTooLarge { actual: usize, budget: usize },
    FrameBudgetTooSmall,
    BadMagic,
    BadVersion(u8),
    BadKind(u8),
    PayloadTooLarge,
    BadPayloadIndex,
    AckHasPayload,
    FinalIndexChanged,
    EmptyPayload,
}

/// Second header byte: version in the high nibble, kind code in the low one.
pub open spec fn header_byte(kind: FrameKind) -> u8 {
    (0x20 + kind.code()) as u8
}

/// Bytes of a frame: magic, version and kind, stream id, index, then payload.
pub open spec fn frame_bytes(kind: FrameKind, stream_id: u8, index: u8, payload: Seq<u8>) -> Seq<
    u8,
> {
    seq![FRAME_MAGIC, header_byte(kind), stream_id, index] + payload
}

/// What decoding the given bytes yields.
pub open spec fn decode_result(raw: Seq<u8>) -> Result<FrameView, TransportError> {
    if raw.len() < 4 {
        Err(TransportError::TooShort)
    } else if raw.len() > 20 {
        Err(TransportError::FrameTooLarge { actual: raw.len() as usize, budget: 20 })
    } else if raw[0] != FRAME_MAGIC {
        Err(TransportError::BadMagic)
    } else if raw[1] / 16 != 2 {
        Err(TransportError::BadVersion((raw[1] / 16) as u8))
    } else {
        match kind_of_code((raw[1] % 16) as u8) {
            None => Err(TransportError::BadKind((raw[1] % 16) as u8)),
            Some(kind) => {
                let payload = raw.subrange(4, raw.len() as int);
                if kind.acknowledges() && payload.len() > 0 {
                    Err(TransportError::AckHasPayload)
                } else if kind.carries_payload() && raw[3] == 0 {
                    Err(TransportError::BadPayloadIndex)
                } else if kind.carries_payload() && payload.len() == 0 {
                    Err(TransportError::EmptyPayload)
                } else {
                    Ok(
                        FrameView {
                            kind,
                            stream_id: raw[2],
                            index: raw[3],
                            final_frame: kind.ends_stream(),
                            payload,
                        },
                    )
                }
            },
        }
    }
}

/// What encoding a frame yields (before the caller's budget check).
pub open spec fn encode_result(f: FrameView) -> Result<Seq<u8>, TransportError> {
    if f.kind.acknowledges() && f.payload.len() > 0 {
        Err(TransportError::AckHasPayload)
    } else if f.kind.carries_payload() && f.index == 0 {
        Err(TransportError::BadPayloadIndex)
    } else if f.kind.carries_payload() && f.payload.len() == 0 {
        Err(TransportError::EmptyPayload)
    } else if f.kind.carries_payload() && f.payload.len() > 16 {
        Err(TransportError::FrameTooLarge { actual: (4 + f.payload.len()) as usize, budget: 20 })
    } else {
        Ok(frame_bytes(f.kind, f.stream_id, f.index, f.payload))
    }
}

/// Outcome of checking an encoded frame against a budget.
pub open spec fn budget_result(frame: Seq<u8>, frame_budget: usize) -> Result<
    Seq<u8>,
    TransportError,
> {
    if frame.len() > frame_budget {
        Err(TransportError::FrameTooLarge { actual: frame.len() as usize, budget: frame_budget })
    } else {
        Ok(frame)
    }
}

proof fn lemma_header_bits(code: u8)
    requires
        code < 16,
    ensures
        ((FRAME_VERSION << 4u8) | code) == 0x20 + code,
        (((0x20 + code) as u8) >> 4u8) == 2,
        (((0x20 + code) as u8) & 0x0fu8) == code,
{
    assert(((2u8 << 4u8) | code) == 0x20 + code) by (bit_vector)
        requires
            code < 16,
    ;
    assert((((0x20 + code) as u8) >> 4u8) == 2) by (bit_vector)
        requires
            code < 16,
    ;
    assert((((0x20 + code) as u8) & 0x0fu8) == code) by (bit_vector)
        requires
            code < 16,
    ;
}

proof fn lemma_split_bits(b: u8)
    ensures
        (b >> 4u8) == b / 16,
        (b & 0x0fu8) == b % 16,
{
    assert((b >> 4u8) == b / 16) by (bit_vector);
    assert((b & 0x0fu8) == b % 16) by (bit_vector);
}

/// True when the bytes start with the transport magic byte.
pub fn is_transport_frame(raw: &[u8]) -> (b: bool)
    ensures
        b == (raw@.len() > 0 && raw@[0] == FRAME_MAGIC),
{
    raw.len() > 0 && raw[0] == FRAME_MAGIC
}

/// Decodes one transport frame.
pub fn decode_frame(raw: &[u8]) -> (r: Result<TransportFrame, TransportError>)
    ensures
        match r {
            Ok(frame) => decode_result(raw@) == Ok::<FrameView, TransportError>(frame@),
            Err(e) => decode_result(raw@) == Err::<FrameView, TransportError>(e),
        },
{
    if raw.len() < FRAME_HEADER_LEN {
        return Err(TransportError::TooShort);
    }
    if raw.len() > FRAME_BUDGET {
        return Err(TransportError::FrameTooLarge { actual: raw.len(), budget: FRAME_BUDGET });
    }
    if raw[0] != FRAME_MAGIC {
        return Err(TransportError::BadMagic);
    }
    proof {
        lemma_split_bits(raw@[1]);
    }
    let version = raw[1] >> 4;
    if version != FRAME_VERSION {
        return Err(TransportError::BadVersion(version));
    }
    let kind = match FrameKind::from_wire(raw[1] & 0x0f) {
        Ok(kind) => kind,
        Err(e) => return Err(e),
    };
    let payload = copy_range(raw, FRAME_HEADER_LEN, raw.len());
    if kind.is_ack() && payload.len() > 0 {
        return Err(TransportError::AckHasPayload);
    }
    if kind.is_payload() {
        if raw[3] == 0 {
            return Err(TransportError::BadPayloadIndex);
        }
        if payload.len() == 0 {
            return Err(TransportError::EmptyPayload);
        }
    }
    Ok(
        TransportFrame {
            kind,
            stream_id: raw[2],
            index: raw[3],
            final_frame: kind.final_frame(),
            payload,
        },
    )
}

/// Encodes a frame; the payload length must leave room for the header in a `usize`.
fn encode_frame(frame: TransportFrame) -> (r: Result<Vec<u8>, TransportError>)
    requires
        frame.payload@.len() + 4 <= usize::MAX,
    ensures
        match r {
            Ok(bytes) => encode_result(frame@) == Ok::<Seq<u8>, TransportError>(bytes@),
            Err(e) => encode_result(frame@) == Err::<Seq<u8>, TransportError>(e),
        },
{
    if frame.kind.is_ack() && frame.payload.len() > 0 {
        return Err(TransportError::AckHasPayload);
    }
    if frame.kind.is_payload() {
        if frame.index == 0 {
            return Err(TransportError::BadPayloadIndex);
        }
        if frame.payload.len() == 0 {
            return Err(TransportError::EmptyPayload);
        }
        if frame.payload.len() > MAX_FRAME_PAYLOAD_LEN {
            return Err(
                TransportError::FrameTooLarge {
                    actual: FRAME_HEADER_LEN + frame.payload.len(),
                    budget: FRAME_BUDGET,
                },
            );
        }
    }
    let code = frame.kind.wire();
    proof {
        lemma_header_bits(code);
    }
    let mut raw: Vec<u8> = Vec::with_capacity(FRAME_HEADER_LEN + frame.payload.len());
    raw.push(FRAME_MAGIC);
    raw.push((FRAME_VERSION << 4) | code);
    raw.push(frame.stream_id);
    raw.push(frame.index);
    append_bytes(&mut raw, frame.payload.as_slice());
    assert(raw@ =~= frame_bytes(frame.kind, frame.stream_id, frame.index, frame.payload@));
    Ok(raw)
}

fn validate_budget(frame: Vec<u8>, frame_budget: usize) -> (r: Result<Vec<u8>, TransportError>)
    ensures
        match r {
            Ok(bytes) => budget_result(frame@, frame_budget) == Ok::<Seq<u8>, TransportError>(
                bytes@,
            ),
            Err(e) => budget_result(frame@, frame_budget) == Err::<Seq<u8>, TransportError>(e),
        },
{
    if frame.len() > frame_budget {
        Err(TransportError::FrameTooLarge { actual: frame.len(), budget: frame_budget })
    } else {
        Ok(frame)
    }
}

/// Encodes a header-only acknowledgement frame.
pub fn encode_ack_frame(kind: FrameKind, stream_id: u8, index: u8, frame_budget: usize) -> (r:
    Result<Vec<u8>, TransportError>)
    ensures
        !kind.acknowledges() ==> r == Err::<Vec<u8>, TransportError>(
            TransportError::BadKind(kind.code()),
        ),
        kind.acknowledges() && frame_budget < 4 ==> r == Err::<Vec<u8>, TransportError>(
            TransportError::FrameTooLarge { actual: 4, budget: frame_budget },
        ),
        kind.acknowledges() && frame_budget >= 4 ==> (r matches Ok(bytes) && bytes@ == frame_bytes(
            kind,
            stream_id,
            index,
            Seq::empty(),
        )),
{
    if !kind.is_ack() {
        return Err(TransportError::BadKind(kind.wire()));
    }
    let frame = TransportFrame {
        kind,
        stream_id,
        index,
        final_frame: false,
        payload: Vec::new(),
    };
    let encoded = match encode_frame(frame) {
        Ok(bytes) => bytes,
        Err(e) => return Err(e),
    };
    assert(encoded@.len() == 4);
    validate_budget(encoded, frame_budget)
}

/// Encodes a header-only control frame (such as a progress tick).
pub fn encode_control_frame(kind: FrameKind, stream_id: u8, index: u8, frame_budget: usize) -> (r:
    Result<Vec<u8>, TransportError>)
    ensures
        kind.carries_payload() ==> r == Err::<Vec<u8>, TransportError>(
            TransportError::BadKind(kind.code()),
        ),
        !kind.carries_payload() && frame_budget < 4 ==> r == Err::<Vec<u8>, TransportError>(
            TransportError::FrameTooLarge { actual: 4, budget: frame_budget },
        ),
        !kind.carries_payload() && frame_budget >= 4 ==> (r matches Ok(bytes) && bytes@
            == frame_bytes(kind, stream_id, index, Seq::empty())),
{
    if kind.is_payload() {
        return Err(TransportError::BadKind(kind.wire()));
    }
    let frame = TransportFrame {
        kind,
        stream_id,
        index,
        final_frame: false,
        payload: Vec::new(),
    };
    let encoded = match encode_frame(frame) {
        Ok(bytes) => bytes,
        Err(e) => return Err(e),
    };
    assert(encoded@.len() == 4);
    validate_budget(encoded, frame_budget)
}


/// Payload bytes per frame for a given frame budget (at most 16).
pub open spec fn fragment_budget(frame_budget: usize) -> int {
    if frame_budget - 4 < 16 {
        frame_budget - 4
    } else {
        16
    }
}

/// Number of frames needed for `len` payload bytes at `pb` bytes per frame.
pub open spec fn fragment_count(len: int, pb: int) -> int {
    len / pb + if len % pb != 0 {
        1int
    } else {
        0int
    }
}

/// The `i`-th fragment (counting from 0) of a payload cut into `pb`-byte pieces.
pub open spec fn fragment(payload: Seq<u8>, pb: int, i: int) -> Seq<u8> {
    let start = i * pb;
    let end = if start + pb < payload.len() {
        start + pb
    } else {
        payload.len() as int
    };
    payload.subrange(start, end)
}

/// The frame that carries the `i`-th fragment of a stream of `total` frames.
pub open spec fn fragment_frame(
    group: PayloadGroup,
    stream_id: u8,
    payload: Seq<u8>,
    pb: int,
    total: int,
    i: int,
) -> Seq<u8> {
    frame_bytes(
        fragment_kind(group, i + 1 == total),
        stream_id,
        (i + 1) as u8,
        fragment(payload, pb, i),
    )
}

/// The error, if any, with which fragmenting a payload of `len` bytes is refused.
pub open spec fn payload_frames_error(kind: FrameKind, len: int, frame_budget: usize) -> Option<
    TransportError,
> {
    if !kind.carries_payload() || kind.ends_stream() {
        Some(TransportError::BadKind(kind.code()))
    } else if frame_budget < 5 {
        Some(TransportError::FrameBudgetTooSmall)
    } else {
        let total = fragment_count(len, fragment_budget(frame_budget));
        if total == 0 || total > 255 {
            Some(TransportError::PayloadTooLarge)
        } else {
            None
        }
    }
}

/// A frame index lies below the fragment count exactly when its fragment starts inside the payload.
pub proof fn lemma_fragment_count(len: int, pb: int, i: int)
    requires
        pb > 0,
        len >= 0,
        i >= 0,
    ensures
        (i < fragment_count(len, pb)) <==> (i * pb < len),
{
    let q = len / pb;
    let r = len % pb;
    vstd::arithmetic::div_mod::lemma_fundamental_div_mod(len, pb);
    vstd::arithmetic::div_mod::lemma_mod_pos_bound(len, pb);
    vstd::arithmetic::div_mod::lemma_div_pos_is_pos(len, pb);
    if i < q {
        assert(i * pb < len) by (nonlinear_arith)
            requires
                i < q,
                len == pb * q + r,
                r >= 0,
                pb > 0,
                i >= 0,
        ;
    } else if i == q {
        assert(i * pb == len - r) by (nonlinear_arith)
            requires
                i == q,
                len == pb * q + r,
        ;
    } else {
        assert(i * pb >= len) by (nonlinear_arith)
            requires
                i > q,
                len == pb * q + r,
                r < pb,
                pb > 0,
        ;
    }
}

/// Splits a payload into transport frames that each fit in `frame_budget` bytes.
pub fn encode_payload_frames(kind: FrameKind, stream_id: u8, payload: &[u8], frame_budget: usize) -> (r:
    Result<Vec<Vec<u8>>, TransportError>)
    ensures
        match r {
            Err(e) => payload_frames_error(kind, payload@.len() as int, frame_budget) == Some(e),
            Ok(frames) => {
                let pb = fragment_budget(frame_budget);
                let total = fragment_count(payload@.len() as int, pb);
                &&& payload_frames_error(kind, payload@.len() as int, frame_budget) is None
                &&& frames@.len() == total
                &&& forall|i: int|
                    0 <= i < total ==> #[trigger] frames@[i]@ == fragment_frame(
                        kind.group(),
                        stream_id,
                        payload@,
                        pb,
                        total,
                        i,
                    )
            },
        },
{
    let group = match kind.payload_group() {
        Ok(group) => group,
        Err(e) => return Err(e),
    };
    match kind {
        FrameKind::RequestChunk | FrameKind::ResponseChunk => {},
        _ => return Err(TransportError::BadKind(kind.wire())),
    }
    if frame_budget < MIN_FRAME_LEN {
        return Err(TransportError::FrameBudgetTooSmall);
    }
    let room = frame_budget - FRAME_HEADER_LEN;
    let payload_budget = if room < MAX_FRAME_PAYLOAD_LEN {
        room
    } else {
        MAX_FRAME_PAYLOAD_LEN
    };
    let whole = payload.len() / payload_budget;
    let rest = payload.len() % payload_budget;
    proof {
        let l = payload@.len() as int;
        let b = payload_budget as int;
        vstd::arithmetic::div_mod::lemma_fundamental_div_mod(l, b);
        vstd::arithmetic::div_mod::lemma_mod_pos_bound(l, b);
        vstd::arithmetic::div_mod::lemma_div_pos_is_pos(l, b);
        if rest != 0 {
            assert(whole < usize::MAX) by (nonlinear_arith)
                requires
                    l == b * whole + rest,
                    rest >= 1,
                    rest < b,
                    l <= usize::MAX,
                    whole >= 0,
            ;
        }
    }
    let total = if rest != 0 {
        whole + 1
    } else {
        whole
    };
    if total == 0 || total > 255 {
        return Err(TransportError::PayloadTooLarge);
    }
    let ghost pb = payload_budget as int;
    let ghost len = payload@.len() as int;
    let mut frames: Vec<Vec<u8>> = Vec::new();
    let mut index: usize = 0;
    let mut start: usize = 0;
    while index < total
        invariant
            pb == payload_budget,
            len == payload@.len(),
            1 <= payload_budget <= 16,
            payload_budget as int == fragment_budget(frame_budget),
            frame_budget >= 5,
            payload_budget + 4 <= frame_budget,
            total as int == fragment_count(len, pb),
            1 <= total <= 255,
            group == kind.group(),
            index <= total,
            index < total ==> start as int == index * pb,
            frames@.len() == index,
            forall|j: int|
                0 <= j < index ==> #[trigger] frames@[j]@ == fragment_frame(
                    group,
                    stream_id,
                    payload@,
                    pb,
                    total as int,
                    j,
                ),
        decreases total - index,
    {
        proof {
            lemma_fragment_count(len, pb, index as int);
        }
        let end = if payload.len() - start > payload_budget {
            start + payload_budget
        } else {
            payload.len()
        };
        let chunk = copy_range(payload, start, end);
        assert(chunk@ == fragment(payload@, pb, index as int));
        let final_frame = index + 1 == total;
        let fragment_kind = match (group, final_frame) {
            (PayloadGroup::Request, false) => FrameKind::RequestChunk,
            (PayloadGroup::Request, true) => FrameKind::RequestFinal,
            (PayloadGroup::Response, false) => FrameKind::ResponseChunk,
            (PayloadGroup::Response, true) => FrameKind::ResponseFinal,
        };
        let frame = TransportFrame {
            kind: fragment_kind,
            stream_id,
            index: (index + 1) as u8,
            final_frame,
            payload: chunk,
        };
        let encoded = match encode_frame(frame) {
            Ok(bytes) => bytes,
            Err(e) => return Err(e),
        };
        let checked = match validate_budget(encoded, frame_budget) {
            Ok(bytes) => bytes,
            Err(e) => return Err(e),
        };
        frames.push(checked);
        if index + 1 < total {
            proof {
                lemma_fragment_count(len, pb, index as int + 1);
                assert((index as int + 1) * pb == index as int * pb + pb) by (nonlinear_arith);
            }
            start = start + payload_budget;
        }
        index = index + 1;
    }
    Ok(frames)
}

/// Encoding then decoding a frame gives the frame back: every frame that encodes and fits
/// in the 20-byte budget decodes to itself (its final flag being the one its kind implies).
pub proof fn lemma_decode_inverts_encode(f: FrameView)
    requires
        encode_result(f) is Ok,
        encode_result(f)->Ok_0.len() <= FRAME_BUDGET,
        f.final_frame == f.kind.ends_stream(),
    ensures
        decode_result(encode_result(f)->Ok_0) == Ok::<FrameView, TransportError>(f),
{
    let raw = encode_result(f)->Ok_0;
    assert(raw[1] == header_byte(f.kind));
    assert(raw[1] / 16 == 2);
    assert(raw[1] % 16 == f.kind.code());
    assert(kind_of_code(f.kind.code()) == Some(f.kind));
    assert(raw.subrange(4, raw.len() as int) =~= f.payload);
}

/// Decoding then encoding a frame gives the bytes back: every byte string that decodes
/// re-encodes to itself.
pub proof fn lemma_encode_inverts_decode(raw: Seq<u8>)
    requires
        decode_result(raw) is Ok,
    ensures
        encode_result(decode_result(raw)->Ok_0) == Ok::<Seq<u8>, TransportError>(raw),
{
    let f = decode_result(raw)->Ok_0;
    let code = (raw[1] % 16) as u8;
    assert(kind_of_code(code) == Some(f.kind));
    assert(f.kind.code() == code);
    assert(raw[1] == 0x20 + code);
    assert(f.payload.len() <= 16);
    assert(frame_bytes(f.kind, f.stream_id, f.index, f.payload) =~= raw);
}

/// Every frame produced for a payload decodes to its fragment, with index `i + 1`,
/// marked final exactly for the last one.
pub proof fn lemma_fragment_frame_decodes(
    group: PayloadGroup,
    stream_id: u8,
    payload: Seq<u8>,
    frame_budget: usize,
    i: int,
)
    requires
        frame_budget >= 5,
        1 <= fragment_count(payload.len() as int, fragment_budget(frame_budget)) <= 255,
        0 <= i < fragment_count(payload.len() as int, fragment_budget(frame_budget)),
    ensures
        ({
            let pb = fragment_budget(frame_budget);
            let total = fragment_count(payload.len() as int, pb);
            let kind = fragment_kind(group, i + 1 == total);
            decode_result(fragment_frame(group, stream_id, payload, pb, total, i)) == Ok::<
                FrameView,
                TransportError,
            >(
                FrameView {
                    kind,
                    stream_id,
                    index: (i + 1) as u8,
                    final_frame: i + 1 == total,
                    payload: fragment(payload, pb, i),
                },
            )
        }),
{
    let pb = fragment_budget(frame_budget);
    let total = fragment_count(payload.len() as int, pb);
    lemma_fragment_count(payload.len() as int, pb, i);
    let frag = fragment(payload, pb, i);
    assert(frag.len() >= 1 && frag.len() <= pb);
    let f = FrameView {
        kind: fragment_kind(group, i + 1 == total),
        stream_id,
        index: (i + 1) as u8,
        final_frame: i + 1 == total,
        payload: frag,
    };
    assert(encode_result(f) == Ok::<Seq<u8>, TransportError>(
        fragment_frame(group, stream_id, payload, pb, total, i),
    ));
    lemma_decode_inverts_encode(f);
}

/// Every frame of a fragmented payload fits one conservative BLE write: a four-byte
/// header and between one and sixteen payload bytes, within the frame budget and at most
/// twenty bytes in all. Every fragment but the last carries a full share of payload bytes.
pub proof fn lemma_fragment_frames_fit_one_write(
    group: PayloadGroup,
    stream_id: u8,
    payload: Seq<u8>,
    frame_budget: usize,
    i: int,
)
    requires
        frame_budget >= 5,
        0 <= i < fragment_count(payload.len() as int, fragment_budget(frame_budget)),
    ensures
        ({
            let pb = fragment_budget(frame_budget);
            let total = fragment_count(payload.len() as int, pb);
            let frame = fragment_frame(group, stream_id, payload, pb, total, i);
            &&& 1 <= fragment(payload, pb, i).len() <= 16
            &&& frame.len() == 4 + fragment(payload, pb, i).len()
            &&& frame.len() <= frame_budget
            &&& frame.len() <= 20
            &&& i + 1 < total ==> fragment(payload, pb, i).len() == pb
        }),
{
    let pb = fragment_budget(frame_budget);
    let total = fragment_count(payload.len() as int, pb);
    lemma_fragment_count(payload.len() as int, pb, i);
    lemma_fragment_count(payload.len() as int, pb, i + 1);
    assert((i + 1) * pb == i * pb + pb) by (nonlinear_arith);
    assert(i * pb >= 0) by (nonlinear_arith)
        requires
            i >= 0,
            pb > 0,
    ;
    assert(fragment(payload, pb, i).len() >= 1 && fragment(payload, pb, i).len() <= pb);
}

/// Concatenation of the first `n` fragments of a payload.
pub open spec fn joined_fragments(payload: Seq<u8>, pb: int, n: nat) -> Seq<u8>
    decreases n,
{
    if n == 0 {
        Seq::empty()
    } else {
        joined_fragments(payload, pb, (n - 1) as nat) + fragment(payload, pb, n - 1)
    }
}

/// Joining the first `n` fragments gives the payload prefix they cover.
pub proof fn lemma_joined_fragments_prefix(payload: Seq<u8>, pb: int, n: nat)
    requires
        pb > 0,
        n <= fragment_count(payload.len() as int, pb),
    ensures
        joined_fragments(payload, pb, n) == payload.subrange(
            0,
            if n * pb < payload.len() {
                n * pb
            } else {
                payload.len() as int
            },
        ),
    decreases n,
{
    if n == 0 {
        assert(payload.subrange(0, 0) =~= Seq::<u8>::empty());
    } else {
        let m = (n - 1) as nat;
        lemma_joined_fragments_prefix(payload, pb, m);
        lemma_fragment_count(payload.len() as int, pb, m as int);
        assert(n * pb == m * pb + pb) by (nonlinear_arith)
            requires
                n == m + 1,
        ;
        assert(m * pb >= 0) by (nonlinear_arith)
            requires
                pb > 0,
        ;
        assert(joined_fragments(payload, pb, n) =~= payload.subrange(
            0,
            if n * pb < payload.len() {
                n * pb
            } else {
                payload.len() as int
            },
        ));
    }
}

/// Joining all fragments of a payload gives the payload.
pub proof fn lemma_joined_fragments_whole(payload: Seq<u8>, pb: int)
    requires
        pb > 0,
    ensures
        joined_fragments(payload, pb, fragment_count(payload.len() as int, pb) as nat) == payload,
{
    let n = fragment_count(payload.len() as int, pb);
    vstd::arithmetic::div_mod::lemma_div_pos_is_pos(payload.len() as int, pb);
    lemma_joined_fragments_prefix(payload, pb, n as nat);
    lemma_fragment_count(payload.len() as int, pb, n);
    assert(payload.subrange(0, payload.len() as int) =~= payload);
}

#[derive(Debug, Clone, PartialEq, Eq)]
pub struct ReassemblerEvent {
    pub frame: TransportFrame,
    pub duplicate: bool,
    pub payload: Option<Vec<u8>>,
}

/// Number of fragment slots each stream keeps (frame indices 1 through 255).
pub const STREAM_SLOTS: usize = 255;

/// Number of streams the reassembler tracks: 256 stream ids for each payload group.
pub const STREAM_TABLE_LEN: usize = 512;

struct StreamState {
    received: usize,
    final_index: Option<u8>,
    parts: Vec<Option<Vec<u8>>>,
}

/// Mathematical content of a partly received stream.
pub struct StreamView {
    pub final_index: Option<u8>,
    pub parts: Seq<Option<Seq<u8>>>,
}

pub open spec fn part_view(part: Option<Vec<u8>>) -> Option<Seq<u8>> {
    match part {
        Some(bytes) => Some(bytes@),
        None => None,
    }
}

impl StreamState {
    spec fn view_stream(&self) -> StreamView {
        StreamView { final_index: self.final_index, parts: self.parts@.map_values(|p| part_view(p)) }
    }

    spec fn wf(&self) -> bool {
        &&& self.parts@.len() == STREAM_SLOTS
        &&& self.received == present_count(self.view_stream().parts)
    }

    fn new() -> (s: StreamState)
        ensures
            s.wf(),
            s.view_stream() == empty_stream(),
    {
        let mut parts: Vec<Option<Vec<u8>>> = Vec::new();
        let mut i: usize = 0;
        while i < STREAM_SLOTS
            invariant
                i <= STREAM_SLOTS,
                parts@.len() == i,
                forall|j: int| 0 <= j < i ==> #[trigger] parts@[j] is None,
            decreases STREAM_SLOTS - i,
        {
            parts.push(None);
            i = i + 1;
        }
        let s = StreamState { received: 0, final_index: None, parts };
        assert(s.view_stream().parts =~= empty_stream().parts);
        proof {
            lemma_present_count_none(empty_stream().parts);
        }
        s
    }
}

spec fn stream_slot_view(slot: Option<StreamState>) -> Option<StreamView> {
    match slot {
        Some(state) => Some(state.view_stream()),
        None => None,
    }
}

/// A stream with nothing received yet.
pub open spec fn empty_stream() -> StreamView {
    StreamView { final_index: None, parts: Seq::new(STREAM_SLOTS as nat, |i: int| None) }
}

/// How many fragment slots of a stream hold a fragment.
pub open spec fn present_count(parts: Seq<Option<Seq<u8>>>) -> nat
    decreases parts.len(),
{
    if parts.len() == 0 {
        0
    } else {
        present_count(parts.drop_last()) + if parts.last() is Some {
            1nat
        } else {
            0nat
        }
    }
}

/// Concatenation of the first `n` fragments of a stream.
pub open spec fn joined_parts(parts: Seq<Option<Seq<u8>>>, n: nat) -> Seq<u8>
    decreases n,
{
    if n == 0 {
        Seq::empty()
    } else {
        joined_parts(parts, (n - 1) as nat) + match parts[n - 1] {
            Some(bytes) => bytes,
            None => Seq::empty(),
        }
    }
}

/// Position in the stream table of stream `stream_id` of a payload group.
pub open spec fn payload_stream_key(group: PayloadGroup, stream_id: u8) -> int {
    match group {
        PayloadGroup::Request => stream_id as int,
        PayloadGroup::Response => 256 + stream_id,
    }
}

/// Position in the stream table of the stream a payload frame belongs to.
pub open spec fn stream_key(f: FrameView) -> int {
    match f.kind.group() {
        PayloadGroup::Request => f.stream_id as int,
        PayloadGroup::Response => 256 + f.stream_id,
    }
}

pub open spec fn stream_or_empty(slot: Option<StreamView>) -> StreamView {
    match slot {
        Some(stream) => stream,
        None => empty_stream(),
    }
}

/// A final frame whose index differs from the final index already recorded.
pub open spec fn step_conflicts(s: StreamView, f: FrameView) -> bool {
    f.final_frame && s.final_index is Some && s.final_index->Some_0 != f.index
}

pub open spec fn step_final_index(s: StreamView, f: FrameView) -> Option<u8> {
    if f.final_frame && s.final_index is None {
        Some(f.index)
    } else {
        s.final_index
    }
}

pub open spec fn step_duplicate(s: StreamView, f: FrameView) -> bool {
    s.parts[f.index - 1] is Some
}

pub open spec fn step_parts(s: StreamView, f: FrameView) -> Seq<Option<Seq<u8>>> {
    if step_duplicate(s, f) {
        s.parts
    } else {
        s.parts.update(f.index - 1, Some(f.payload))
    }
}

/// The stream is complete once the final index is known and as many fragments are held.
pub open spec fn step_completes(s: StreamView, f: FrameView) -> bool {
    match step_final_index(s, f) {
        Some(fi) => present_count(step_parts(s, f)) == fi,
        None => false,
    }
}

/// A completion whose fragments below the final index are not all present: fragments
/// beyond the final index were counted. The joined payload is undefined there.
pub open spec fn step_faults(s: StreamView, f: FrameView) -> bool {
    step_completes(s, f) && exists|j: int|
        0 <= j < step_final_index(s, f)->Some_0 && #[trigger] step_parts(s, f)[j] is None
}

/// The stream after a frame that neither conflicts nor completes it.
pub open spec fn step_stream(s: StreamView, f: FrameView) -> StreamView {
    StreamView { final_index: step_final_index(s, f), parts: step_parts(s, f) }
}

proof fn lemma_present_count_none(parts: Seq<Option<Seq<u8>>>)
    requires
        forall|i: int| 0 <= i < parts.len() ==> #[trigger] parts[i] is None,
    ensures
        present_count(parts) == 0,
    decreases parts.len(),
{
    if parts.len() > 0 {
        lemma_present_count_none(parts.drop_last());
    }
}

proof fn lemma_present_count_bound(parts: Seq<Option<Seq<u8>>>)
    ensures
        present_count(parts) <= parts.len(),
    decreases parts.len(),
{
    if parts.len() > 0 {
        lemma_present_count_bound(parts.drop_last());
    }
}

proof fn lemma_present_count_fill(parts: Seq<Option<Seq<u8>>>, i: int, v: Seq<u8>)
    requires
        0 <= i < parts.len(),
        parts[i] is None,
    ensures
        present_count(parts.update(i, Some(v))) == present_count(parts) + 1,
    decreases parts.len(),
{
    let up = parts.update(i, Some(v));
    if i == parts.len() - 1 {
        assert(up.drop_last() =~= parts.drop_last());
    } else {
        assert(up.drop_last() =~= parts.drop_last().update(i, Some(v)));
        lemma_present_count_fill(parts.drop_last(), i, v);
    }
}

fn stream_would_fault(state: &StreamState, frame: &TransportFrame) -> (b: bool)
    requires
        state.wf(),
        frame.kind.carries_payload(),
        1 <= frame.index,
    ensures
        b == (!step_conflicts(state.view_stream(), frame@) && step_faults(
            state.view_stream(),
            frame@,
        )),
{
    if !stream_would_complete(state, frame) {
        return false;
    }
    stream_completion_misses_part(state, frame)
}

fn stream_would_complete(state: &StreamState, frame: &TransportFrame) -> (b: bool)
    requires
        state.wf(),
        frame.kind.carries_payload(),
        1 <= frame.index,
    ensures
        b == (!step_conflicts(state.view_stream(), frame@) && step_completes(
            state.view_stream(),
            frame@,
        )),
{
    let ghost s = state.view_stream();
    let ghost f = frame@;
    let final_index = if frame.final_frame {
        match state.final_index {
            Some(final_index) => {
                if final_index != frame.index {
                    return false;
                }
                final_index
            },
            None => frame.index,
        }
    } else {
        match state.final_index {
            Some(final_index) => final_index,
            None => return false,
        }
    };
    let pos: usize = (frame.index - 1) as usize;
    let duplicate = state.parts[pos].is_some();
    proof {
        lemma_present_count_bound(s.parts);
        if !duplicate {
            lemma_present_count_fill(s.parts, pos as int, f.payload);
        }
    }
    let count = if duplicate {
        state.received
    } else {
        state.received + 1
    };
    count == final_index as usize
}

fn stream_completion_misses_part(state: &StreamState, frame: &TransportFrame) -> (b: bool)
    requires
        state.wf(),
        frame.kind.carries_payload(),
        1 <= frame.index,
        !step_conflicts(state.view_stream(), frame@),
        step_completes(state.view_stream(), frame@),
    ensures
        b == step_faults(state.view_stream(), frame@),
{
    let ghost s = state.view_stream();
    let ghost f = frame@;
    let final_index: u8 = match state.final_index {
        Some(final_index) => final_index,
        None => frame.index,
    };
    assert(step_final_index(s, f) == Some(final_index));
    let pos: usize = (frame.index - 1) as usize;
    let duplicate = state.parts[pos].is_some();
    let mut j: usize = 0;
    while j < final_index as usize
        invariant
            j <= final_index,
            final_index <= 255,
            pos < 255,
            state.parts@.len() == 255,
            s == state.view_stream(),
            f == frame@,
            step_final_index(s, f) == Some(final_index),
            step_completes(s, f),
            !step_conflicts(s, f),
            step_duplicate(s, f) == duplicate,
            pos as int == f.index - 1,
            forall|i: int| 0 <= i < j ==> #[trigger] step_parts(s, f)[i] is Some,
        decreases final_index - j,
    {
        assert(s.parts[j as int] == part_view(state.parts@[j as int]));
        if j != pos && state.parts[j].is_none() {
            assert(step_parts(s, f)[j as int] is None);
            assert(0 <= j < step_final_index(s, f)->Some_0);
            assert(step_faults(s, f));
            return true;
        }
        j = j + 1;
    }
    false
}

pub struct PayloadReassembler {
    streams: Vec<Option<StreamState>>,
}

impl View for PayloadReassembler {
    type V = Seq<Option<StreamView>>;

    closed spec fn view(&self) -> Seq<Option<StreamView>> {
        self.streams@.map_values(|slot: Option<StreamState>| stream_slot_view(slot))
    }
}

impl PayloadReassembler {
    /// Internal consistency of the stream table.
    pub closed spec fn wf(&self) -> bool {
        &&& self.streams@.len() == STREAM_TABLE_LEN
        &&& forall|k: int|
            0 <= k < STREAM_TABLE_LEN ==> (#[trigger] self.streams@[k] matches Some(state)
                ==> state.wf())
    }

    /// Whether accepting `raw` would complete a stream whose fragments below the final
    /// index are not all present.
    pub open spec fn accept_faults(&self, raw: Seq<u8>) -> bool {
        match decode_result(raw) {
            Ok(f) => f.kind.carries_payload() && {
                let s = stream_or_empty(self@[stream_key(f)]);
                !step_conflicts(s, f) && step_faults(s, f)
            },
            Err(_) => false,
        }
    }

    pub fn new() -> (r: PayloadReassembler)
        ensures
            r.wf(),
            r@.len() == STREAM_TABLE_LEN,
            forall|k: int| 0 <= k < STREAM_TABLE_LEN ==> #[trigger] r@[k] is None,
    {
        let mut streams: Vec<Option<StreamState>> = Vec::new();
        let mut i: usize = 0;
        while i < STREAM_TABLE_LEN
            invariant
                i <= STREAM_TABLE_LEN,
                streams@.len() == i,
                forall|j: int| 0 <= j < i ==> #[trigger] streams@[j] is None,
            decreases STREAM_TABLE_LEN - i,
        {
            streams.push(None);
            i = i + 1;
        }
        PayloadReassembler { streams }
    }

    /// Whether accepting `raw` would complete a stream that misses a fragment below its
    /// final index (which `accept_frame` cannot join).
    pub fn accept_would_fault(&self, raw: &[u8]) -> (b: bool)
        requires
            self.wf(),
        ensures
            b == self.accept_faults(raw@),
    {
        let frame = match decode_frame(raw) {
            Ok(frame) => frame,
            Err(_) => return false,
        };
        if !frame.kind.is_payload() {
            return false;
        }
        let key: usize = match frame.kind {
            FrameKind::RequestChunk | FrameKind::RequestFinal => frame.stream_id as usize,
            _ => 256 + frame.stream_id as usize,
        };
        assert(key as int == stream_key(frame@));
        match &self.streams[key] {
            Some(state) => stream_would_fault(state, &frame),
            None => {
                let fresh = StreamState::new();
                stream_would_fault(&fresh, &frame)
            },
        }
    }

    /// Whether `raw` is a final frame whose index differs from its stream's final index.
    pub open spec fn accept_conflicts(&self, raw: Seq<u8>) -> bool {
        match decode_result(raw) {
            Ok(f) => f.kind.carries_payload() && step_conflicts(
                stream_or_empty(self@[stream_key(f)]),
                f,
            ),
            Err(_) => false,
        }
    }

    /// Whether accepting `raw` would be refused with `FinalIndexChanged`.
    pub fn accept_would_conflict(&self, raw: &[u8]) -> (b: bool)
        requires
            self.wf(),
        ensures
            b == self.accept_conflicts(raw@),
    {
        let frame = match decode_frame(raw) {
            Ok(frame) => frame,
            Err(_) => return false,
        };
        if !frame.kind.is_payload() {
            return false;
        }
        let key: usize = match frame.kind {
            FrameKind::RequestChunk | FrameKind::RequestFinal => frame.stream_id as usize,
            _ => 256 + frame.stream_id as usize,
        };
        assert(key as int == stream_key(frame@));
        match &self.streams[key] {
            Some(state) => {
                assert(self@[key as int] == Some(state.view_stream()));
                match state.final_index {
                    Some(final_index) => frame.final_frame && final_index != frame.index,
                    None => false,
                }
            },
            None => false,
        }
    }

    /// Whether accepting `raw` would complete its stream (and return the joined payload).
    pub open spec fn accept_completes(&self, raw: Seq<u8>) -> bool {
        match decode_result(raw) {
            Ok(f) => f.kind.carries_payload() && {
                let s = stream_or_empty(self@[stream_key(f)]);
                !step_conflicts(s, f) && step_completes(s, f)
            },
            Err(_) => false,
        }
    }

    /// Whether accepting `raw` would complete its stream.
    pub fn accept_would_complete(&self, raw: &[u8]) -> (b: bool)
        requires
            self.wf(),
        ensures
            b == self.accept_completes(raw@),
    {
        let frame = match decode_frame(raw) {
            Ok(frame) => frame,
            Err(_) => return false,
        };
        if !frame.kind.is_payload() {
            return false;
        }
        let key: usize = match frame.kind {
            FrameKind::RequestChunk | FrameKind::RequestFinal => frame.stream_id as usize,
            _ => 256 + frame.stream_id as usize,
        };
        assert(key as int == stream_key(frame@));
        match &self.streams[key] {
            Some(state) => stream_would_complete(state, &frame),
            None => {
                let fresh = StreamState::new();
                stream_would_complete(&fresh, &frame)
            },
        }
    }

    /// Feeds one raw frame to the reassembler.
    pub fn accept_frame(&mut self, raw: &[u8]) -> (r: Result<ReassemblerEvent, TransportError>)
        requires
            old(self).wf(),
            !old(self).accept_faults(raw@),
        ensures
            final(self).wf(),
            final(self)@.len() == STREAM_TABLE_LEN,
            match decode_result(raw@) {
                Err(e) => r == Err::<ReassemblerEvent, TransportError>(e) && final(self)@ == old(
                    self,
                )@,
                Ok(f) => if !f.kind.carries_payload() {
                    &&& r matches Ok(ev)
                    &&& ev.frame@ == f
                    &&& !ev.duplicate
                    &&& ev.payload is None
                    &&& final(self)@ == old(self)@
                } else {
                    let k = stream_key(f);
                    let s = stream_or_empty(old(self)@[k]);
                    if step_conflicts(s, f) {
                        &&& r == Err::<ReassemblerEvent, TransportError>(
                            TransportError::FinalIndexChanged,
                        )
                        &&& final(self)@ == old(self)@
                    } else {
                        &&& r matches Ok(ev)
                        &&& ev.frame@ == f
                        &&& ev.duplicate == step_duplicate(s, f)
                        &&& if step_completes(s, f) {
                            &&& ev.payload matches Some(p)
                            &&& p@ == joined_parts(
                                step_parts(s, f),
                                step_final_index(s, f)->Some_0 as nat,
                            )
                            &&& final(self)@ == old(self)@.update(k, None)
                        } else {
                            &&& ev.payload is None
                            &&& final(self)@ == old(self)@.update(k, Some(step_stream(s, f)))
                        }
                    }
                }
            },
            match decode_result(raw@) {
                Ok(f) => f.kind.carries_payload() ==> {
                    let k = stream_key(f);
                    let outcome = stream_outcome(old(self)@[k], f);
                    &&& final(self)@ == old(self)@.update(k, outcome.0)
                    &&& (r matches Ok(ev) ==> part_view(ev.payload) == outcome.1)
                    &&& (r is Err <==> step_conflicts(stream_or_empty(old(self)@[k]), f))
                },
                Err(_) => true,
            },
            final(self)@ == accept_outcome(old(self)@, raw@).0,
            r matches Ok(ev) ==> part_view(ev.payload) == accept_outcome(old(self)@, raw@).1
                && ev.duplicate == accept_outcome(old(self)@, raw@).2,
    {
        let frame = match decode_frame(raw) {
            Ok(frame) => frame,
            Err(e) => return Err(e),
        };
        if !frame.kind.is_payload() {
            return Ok(ReassemblerEvent { frame, duplicate: false, payload: None });
        }
        if frame.index == 0 {
            return Err(TransportError::BadPayloadIndex);
        }
        let group = match frame.kind.payload_group() {
            Ok(group) => group,
            Err(e) => return Err(e),
        };
        let key: usize = match group {
            PayloadGroup::Request => frame.stream_id as usize,
            PayloadGroup::Response => 256 + frame.stream_id as usize,
        };
        let ghost f = frame@;
        let ghost old_view = self@;
        let ghost s = stream_or_empty(old_view[key as int]);
        assert(key as int == stream_key(f));
        let mut slot: Option<StreamState> = None;
        self.streams.set_and_swap(key, &mut slot);
        let mut state = match slot {
            Some(state) => state,
            None => StreamState::new(),
        };
        assert(state.view_stream() == s);
        if frame.final_frame {
            match state.final_index {
                Some(final_index) => {
                    if final_index != frame.index {
                        self.streams.set(key, Some(state));
                        assert(self@ =~= old_view);
                        return Err(TransportError::FinalIndexChanged);
                    }
                },
                None => {
                    state.final_index = Some(frame.index);
                },
            }
        }
        let pos: usize = (frame.index - 1) as usize;
        let duplicate = state.parts[pos].is_some();
        if !duplicate {
            proof {
                lemma_present_count_fill(s.parts, pos as int, f.payload);
                lemma_present_count_bound(s.parts);
            }
            let copy = copy_range(frame.payload.as_slice(), 0, frame.payload.len());
            assert(copy@ =~= frame.payload@);
            state.parts.set(pos, Some(copy));
            state.received = state.received + 1;
        }
        assert(state.view_stream().parts =~= step_parts(s, f));
        assert(state.view_stream().final_index == step_final_index(s, f));
        let complete = match state.final_index {
            Some(final_index) => state.received == final_index as usize,
            None => false,
        };
        if complete {
            let final_index = match state.final_index {
                Some(final_index) => final_index,
                None => 0,
            };
            let ghost parts = step_parts(s, f);
            let mut payload: Vec<u8> = Vec::new();
            let mut j: usize = 0;
            while j < final_index as usize
                invariant
                    j <= final_index,
                    final_index <= STREAM_SLOTS,
                    state.parts@.len() == STREAM_SLOTS,
                    state.parts@.map_values(|p| part_view(p)) == parts,
                    forall|i: int| 0 <= i < final_index ==> #[trigger] parts[i] is Some,
                    payload@ == joined_parts(parts, j as nat),
                decreases final_index - j,
            {
                assert(parts[j as int] == part_view(state.parts@[j as int]));
                match &state.parts[j] {
                    Some(part) => append_bytes(&mut payload, part.as_slice()),
                    None => {},
                }
                j = j + 1;
            }
            assert(self@ =~= old_view.update(key as int, None));
            Ok(ReassemblerEvent { frame, duplicate, payload: Some(payload) })
        } else {
            self.streams.set(key, Some(state));
            assert(self@ =~= old_view.update(key as int, Some(step_stream(s, f))));
            Ok(ReassemblerEvent { frame, duplicate, payload: None })
        }
    }
}

/// What accepting `raw` does to a stream table: the new table, the payload it completes,
/// and whether it repeats a fragment already held.
pub open spec fn accept_outcome(table: Seq<Option<StreamView>>, raw: Seq<u8>) -> (
    Seq<Option<StreamView>>,
    Option<Seq<u8>>,
    bool,
) {
    match decode_result(raw) {
        Ok(f) => if f.kind.carries_payload() {
            let k = stream_key(f);
            let out = stream_outcome(table[k], f);
            (table.update(k, out.0), out.1, step_duplicate(stream_or_empty(table[k]), f))
        } else {
            (table, None, false)
        },
        Err(_) => (table, None, false),
    }
}

/// Accepts raw frames one after another, collecting what each completes and whether it
/// was a repeat: the effect of calling `accept_frame` on each of them in turn.
pub open spec fn accept_run(table: Seq<Option<StreamView>>, raws: Seq<Seq<u8>>) -> (
    Seq<Option<StreamView>>,
    Seq<Option<Seq<u8>>>,
    Seq<bool>,
)
    decreases raws.len(),
{
    if raws.len() == 0 {
        (table, Seq::empty(), Seq::empty())
    } else {
        let before = accept_run(table, raws.drop_last());
        let step = accept_outcome(before.0, raws.last());
        (step.0, before.1.push(step.1), before.2.push(step.2))
    }
}

/// What one payload frame does to the stream it belongs to: the new table entry and the
/// completed payload, if any. A conflicting final frame leaves the entry as it was.
pub open spec fn stream_outcome(slot: Option<StreamView>, f: FrameView) -> (
    Option<StreamView>,
    Option<Seq<u8>>,
) {
    let s = stream_or_empty(slot);
    if step_conflicts(s, f) {
        (slot, None)
    } else if step_completes(s, f) {
        (None, Some(joined_parts(step_parts(s, f), step_final_index(s, f)->Some_0 as nat)))
    } else {
        (Some(step_stream(s, f)), None)
    }
}

/// Feeds a sequence of frames of one stream, in order, collecting what each one completes.
pub open spec fn stream_run(slot: Option<StreamView>, frames: Seq<FrameView>) -> (
    Option<StreamView>,
    Seq<Option<Seq<u8>>>,
)
    decreases frames.len(),
{
    if frames.len() == 0 {
        (slot, Seq::empty())
    } else {
        let before = stream_run(slot, frames.drop_last());
        let step = stream_outcome(before.0, frames.last());
        (step.0, before.1.push(step.1))
    }
}

/// The decoded frame that carries fragment `i` of a payload.
pub open spec fn fragment_view(
    group: PayloadGroup,
    stream_id: u8,
    payload: Seq<u8>,
    pb: int,
    total: int,
    i: int,
) -> FrameView {
    FrameView {
        kind: fragment_kind(group, i + 1 == total),
        stream_id,
        index: (i + 1) as u8,
        final_frame: i + 1 == total,
        payload: fragment(payload, pb, i),
    }
}

/// Whether fragment `i` occurs among the first `k` entries of `order`.
pub open spec fn seen_within(order: Seq<int>, k: int, i: int) -> bool {
    exists|p: int| 0 <= p < k && #[trigger] order[p] == i
}

/// The stream holding exactly the fragments seen among the first `k` entries of `order`.
pub open spec fn partial_stream(payload: Seq<u8>, pb: int, total: int, order: Seq<int>, k: int) -> StreamView {
    StreamView {
        final_index: if seen_within(order, k, total - 1) {
            Some(total as u8)
        } else {
            None
        },
        parts: Seq::new(
            STREAM_SLOTS as nat,
            |j: int|
                if j < total && seen_within(order, k, j) {
                    Some(fragment(payload, pb, j))
                } else {
                    None
                },
        ),
    }
}

proof fn lemma_present_count_tail_none(parts: Seq<Option<Seq<u8>>>, m: int)
    requires
        0 <= m <= parts.len(),
        forall|j: int| m <= j < parts.len() ==> #[trigger] parts[j] is None,
    ensures
        present_count(parts) == present_count(parts.subrange(0, m)),
    decreases parts.len(),
{
    if parts.len() > m {
        assert(parts.drop_last().subrange(0, m) =~= parts.subrange(0, m));
        lemma_present_count_tail_none(parts.drop_last(), m);
    } else {
        assert(parts.subrange(0, m) =~= parts);
    }
}

proof fn lemma_present_count_full(parts: Seq<Option<Seq<u8>>>)
    ensures
        present_count(parts) <= parts.len(),
        present_count(parts) == parts.len() <==> forall|j: int|
            0 <= j < parts.len() ==> #[trigger] parts[j] is Some,
    decreases parts.len(),
{
    if parts.len() > 0 {
        let d = parts.drop_last();
        lemma_present_count_full(d);
        if present_count(parts) == parts.len() {
            assert forall|j: int| 0 <= j < parts.len() implies #[trigger] parts[j] is Some by {
                if j < parts.len() - 1 {
                    assert(d[j] == parts[j]);
                }
            }
        }
        if forall|j: int| 0 <= j < parts.len() ==> #[trigger] parts[j] is Some {
            assert forall|j: int| 0 <= j < d.len() implies #[trigger] d[j] is Some by {
                assert(d[j] == parts[j]);
            }
        }
    }
}

proof fn lemma_joined_parts_fragments(parts: Seq<Option<Seq<u8>>>, payload: Seq<u8>, pb: int, m: nat)
    requires
        m <= parts.len(),
        forall|j: int| 0 <= j < m ==> #[trigger] parts[j] == Some(fragment(payload, pb, j)),
    ensures
        joined_parts(parts, m) == joined_fragments(payload, pb, m),
    decreases m,
{
    if m > 0 {
        lemma_joined_parts_fragments(parts, payload, pb, (m - 1) as nat);
    }
}

/// The frames of one payload stream, fed to a stream that has none of them in any order
/// and with any repetitions, complete the stream exactly when the last missing fragment
/// arrives, and the completed payload is the original payload. No frame of the stream
/// conflicts with another, no completion finds a fragment missing, and a frame is reported
/// as a duplicate exactly when the same fragment came earlier in the run.
pub proof fn lemma_fragments_reassemble_in_any_order(
    group: PayloadGroup,
    stream_id: u8,
    payload: Seq<u8>,
    frame_budget: usize,
    order: Seq<int>,
)
    requires
        frame_budget >= 5,
        1 <= fragment_count(payload.len() as int, fragment_budget(frame_budget)) <= 255,
        order.len() >= 1,
        forall|p: int|
            0 <= p < order.len() ==> 0 <= #[trigger] order[p] < fragment_count(
                payload.len() as int,
                fragment_budget(frame_budget),
            ),
        forall|i: int|
            0 <= i < fragment_count(payload.len() as int, fragment_budget(frame_budget))
                ==> seen_within(order, order.len() as int, i),
        exists|i: int|
            0 <= i < fragment_count(payload.len() as int, fragment_budget(frame_budget))
                && !#[trigger] seen_within(order, order.len() - 1, i),
    ensures
        ({
            let pb = fragment_budget(frame_budget);
            let total = fragment_count(payload.len() as int, pb);
            let frames = order.map_values(
                |i: int| fragment_view(group, stream_id, payload, pb, total, i),
            );
            let run = stream_run(None, frames);
            &&& run.0 is None
            &&& run.1.len() == order.len()
            &&& run.1.last() == Some(payload)
            &&& forall|p: int| 0 <= p < order.len() - 1 ==> #[trigger] run.1[p] is None
            &&& forall|p: int|
                0 <= p < order.len() ==> {
                    let st = stream_or_empty(#[trigger] stream_run(None, frames.take(p)).0);
                    &&& !step_conflicts(st, frames[p])
                    &&& !step_faults(st, frames[p])
                    &&& step_duplicate(st, frames[p]) == seen_within(order, p, order[p])
                }
        }),
{
    let pb = fragment_budget(frame_budget);
    let total = fragment_count(payload.len() as int, pb);
    let frames = order.map_values(|i: int| fragment_view(group, stream_id, payload, pb, total, i));
    let n = order.len() as int;
    lemma_stream_run_partial(group, stream_id, payload, frame_budget, order, n - 1);
    let before = stream_run(None, frames.take(n - 1));
    assert(frames.drop_last() =~= frames.take(n - 1));
    let s = stream_or_empty(before.0);
    let f = frames.last();
    let i = order[n - 1];
    assert(f == fragment_view(group, stream_id, payload, pb, total, i));
    let after = partial_stream(payload, pb, total, order, n);
    assert forall|j: int| 0 <= j < total implies seen_within(order, n, j) by {}
    // the last frame brings the last missing fragment
    let missing = choose|j: int| 0 <= j < total && !#[trigger] seen_within(order, n - 1, j);
    assert(missing == i) by {
        assert(seen_within(order, n, missing));
        let p = choose|p: int| 0 <= p < n && #[trigger] order[p] == missing;
        if p < n - 1 {
            assert(seen_within(order, n - 1, missing));
        }
    }
    lemma_step_partial(payload, pb, total, order, n - 1, group, stream_id);
    assert(step_parts(s, f) =~= after.parts);
    lemma_present_count_tail_none(after.parts, total);
    lemma_present_count_full(after.parts.subrange(0, total));
    assert forall|j: int| 0 <= j < total implies #[trigger] after.parts.subrange(0, total)[j] is Some by {}
    assert(step_final_index(s, f) == Some(total as u8));
    assert(step_completes(s, f));
    assert forall|j: int| 0 <= j < total implies #[trigger] step_parts(s, f)[j] == Some(
        fragment(payload, pb, j),
    ) by {}
    lemma_joined_parts_fragments(step_parts(s, f), payload, pb, total as nat);
    lemma_joined_fragments_whole(payload, pb);
    assert forall|p: int| 0 <= p < n implies {
        let st = stream_or_empty(#[trigger] stream_run(None, frames.take(p)).0);
        &&& !step_conflicts(st, frames[p])
        &&& !step_faults(st, frames[p])
        &&& step_duplicate(st, frames[p]) == seen_within(order, p, order[p])
    } by {
        lemma_run_step_flags(group, stream_id, payload, frame_budget, order, p, missing);
    }
}

/// Each step of a run that still misses fragment `missing` before it: the frame does not
/// conflict, its completion (if any) finds every fragment, and it is a duplicate exactly
/// when its fragment was seen before.
proof fn lemma_run_step_flags(
    group: PayloadGroup,
    stream_id: u8,
    payload: Seq<u8>,
    frame_budget: usize,
    order: Seq<int>,
    p: int,
    missing: int,
)
    requires
        frame_budget >= 5,
        1 <= fragment_count(payload.len() as int, fragment_budget(frame_budget)) <= 255,
        0 <= p < order.len(),
        forall|q: int|
            0 <= q < order.len() ==> 0 <= #[trigger] order[q] < fragment_count(
                payload.len() as int,
                fragment_budget(frame_budget),
            ),
        0 <= missing < fragment_count(payload.len() as int, fragment_budget(frame_budget)),
        !seen_within(order, order.len() - 1, missing),
    ensures
        ({
            let pb = fragment_budget(frame_budget);
            let total = fragment_count(payload.len() as int, pb);
            let frames = order.map_values(
                |i: int| fragment_view(group, stream_id, payload, pb, total, i),
            );
            let st = stream_or_empty(stream_run(None, frames.take(p)).0);
            &&& !step_conflicts(st, frames[p])
            &&& !step_faults(st, frames[p])
            &&& step_duplicate(st, frames[p]) == seen_within(order, p, order[p])
        }),
{
    let pb = fragment_budget(frame_budget);
    let total = fragment_count(payload.len() as int, pb);
    let frames = order.map_values(|i: int| fragment_view(group, stream_id, payload, pb, total, i));
    assert(!seen_within(order, p, missing)) by {
        if seen_within(order, p, missing) {
            let q = choose|q: int| 0 <= q < p && #[trigger] order[q] == missing;
            assert(seen_within(order, order.len() - 1, missing));
        }
    }
    lemma_stream_run_partial(group, stream_id, payload, frame_budget, order, p);
    let s = partial_stream(payload, pb, total, order, p);
    let f = frames[p];
    assert(f == fragment_view(group, stream_id, payload, pb, total, order[p]));
    lemma_step_partial(payload, pb, total, order, p, group, stream_id);
    let after = partial_stream(payload, pb, total, order, p + 1);
    assert(f.index - 1 == order[p]);
    assert(step_parts(s, f) =~= after.parts);
    lemma_present_count_tail_none(after.parts, total);
    lemma_present_count_full(after.parts.subrange(0, total));
    if step_completes(s, f) {
        assert forall|j: int| 0 <= j < total implies #[trigger] step_parts(s, f)[j] is Some by {
            assert(after.parts.subrange(0, total)[j] is Some);
        }
    }
}

/// Feeding a prefix of the order that still misses a fragment completes nothing, and
/// leaves the stream holding exactly the fragments seen so far.
proof fn lemma_stream_run_partial(
    group: PayloadGroup,
    stream_id: u8,
    payload: Seq<u8>,
    frame_budget: usize,
    order: Seq<int>,
    k: int,
)
    requires
        frame_budget >= 5,
        1 <= fragment_count(payload.len() as int, fragment_budget(frame_budget)) <= 255,
        0 <= k < order.len(),
        forall|p: int|
            0 <= p < order.len() ==> 0 <= #[trigger] order[p] < fragment_count(
                payload.len() as int,
                fragment_budget(frame_budget),
            ),
        exists|i: int|
            0 <= i < fragment_count(payload.len() as int, fragment_budget(frame_budget))
                && !#[trigger] seen_within(order, k, i),
    ensures
        ({
            let pb = fragment_budget(frame_budget);
            let total = fragment_count(payload.len() as int, pb);
            let frames = order.map_values(
                |i: int| fragment_view(group, stream_id, payload, pb, total, i),
            );
            let run = stream_run(None, frames.take(k));
            &&& stream_or_empty(run.0) == partial_stream(payload, pb, total, order, k)
            &&& run.1.len() == k
            &&& forall|p: int| 0 <= p < k ==> #[trigger] run.1[p] is None
        }),
    decreases k,
{
    let pb = fragment_budget(frame_budget);
    let total = fragment_count(payload.len() as int, pb);
    let frames = order.map_values(|i: int| fragment_view(group, stream_id, payload, pb, total, i));
    if k == 0 {
        assert(frames.take(0) =~= Seq::<FrameView>::empty());
        assert(partial_stream(payload, pb, total, order, 0).parts =~= empty_stream().parts);
    } else {
        let missing = choose|i: int| 0 <= i < total && !#[trigger] seen_within(order, k, i);
        assert(!seen_within(order, k - 1, missing));
        lemma_stream_run_partial(group, stream_id, payload, frame_budget, order, k - 1);
        assert(frames.take(k).drop_last() =~= frames.take(k - 1));
        let before = stream_run(None, frames.take(k - 1));
        let s = stream_or_empty(before.0);
        let f = frames.take(k).last();
        let i = order[k - 1];
        assert(f == fragment_view(group, stream_id, payload, pb, total, i));
        lemma_step_partial(payload, pb, total, order, k - 1, group, stream_id);
        let after = partial_stream(payload, pb, total, order, k);
        assert(step_parts(s, f) =~= after.parts);
        lemma_present_count_tail_none(after.parts, total);
        lemma_present_count_full(after.parts.subrange(0, total));
        assert(after.parts.subrange(0, total)[missing] is None);
        assert(!step_completes(s, f));
        assert(step_stream(s, f) == after);
    }
}

/// One fragment frame applied to the stream of the fragments seen so far.
proof fn lemma_step_partial(
    payload: Seq<u8>,
    pb: int,
    total: int,
    order: Seq<int>,
    k: int,
    group: PayloadGroup,
    stream_id: u8,
)
    requires
        1 <= total <= 255,
        0 <= k < order.len(),
        0 <= order[k] < total,
    ensures
        ({
            let s = partial_stream(payload, pb, total, order, k);
            let f = fragment_view(group, stream_id, payload, pb, total, order[k]);
            let after = partial_stream(payload, pb, total, order, k + 1);
            &&& !step_conflicts(s, f)
            &&& step_parts(s, f) =~= after.parts
            &&& step_final_index(s, f) == after.final_index
        }),
{
    let s = partial_stream(payload, pb, total, order, k);
    let i = order[k];
    let f = fragment_view(group, stream_id, payload, pb, total, i);
    let after = partial_stream(payload, pb, total, order, k + 1);
    assert(seen_within(order, k + 1, i));
    assert forall|j: int| 0 <= j < total implies (seen_within(order, k + 1, j) <==> (seen_within(
        order,
        k,
        j,
    ) || j == i)) by {
        if seen_within(order, k + 1, j) && j != i {
            let p = choose|p: int| 0 <= p < k + 1 && #[trigger] order[p] == j;
            assert(p < k);
        }
        if seen_within(order, k, j) {
            let p = choose|p: int| 0 <= p < k && #[trigger] order[p] == j;
            assert(0 <= p < k + 1 && order[p] == j);
        }
    }
    assert(f.index - 1 == i);
    assert forall|j: int| 0 <= j < STREAM_SLOTS implies #[trigger] step_parts(s, f)[j]
        == after.parts[j] by {}
}


/// Accepting the encoded frames of one stream, one at a time in any order and with any
/// repetitions, on a table with nothing pending for that stream: each call reports a
/// repeat exactly when its fragment came before, none completes a payload but the one
/// bringing the last missing fragment, which completes the original payload, and the
/// table ends as it began. No call conflicts or faults.
pub proof fn lemma_accepting_encoded_frames_in_any_order(
    table: Seq<Option<StreamView>>,
    group: PayloadGroup,
    stream_id: u8,
    payload: Seq<u8>,
    frame_budget: usize,
    order: Seq<int>,
)
    requires
        table.len() == STREAM_TABLE_LEN,
        frame_budget >= 5,
        1 <= fragment_count(payload.len() as int, fragment_budget(frame_budget)) <= 255,
        table[payload_stream_key(group, stream_id)] is None,
        order.len() >= 1,
        forall|p: int|
            0 <= p < order.len() ==> 0 <= #[trigger] order[p] < fragment_count(
                payload.len() as int,
                fragment_budget(frame_budget),
            ),
        forall|i: int|
            0 <= i < fragment_count(payload.len() as int, fragment_budget(frame_budget))
                ==> seen_within(order, order.len() as int, i),
        exists|i: int|
            0 <= i < fragment_count(payload.len() as int, fragment_budget(frame_budget))
                && !#[trigger] seen_within(order, order.len() - 1, i),
    ensures
        ({
            let pb = fragment_budget(frame_budget);
            let total = fragment_count(payload.len() as int, pb);
            let raws = order.map_values(
                |i: int| fragment_frame(group, stream_id, payload, pb, total, i),
            );
            let run = accept_run(table, raws);
            &&& run.0 == table
            &&& run.1.len() == order.len()
            &&& run.1.last() == Some(payload)
            &&& forall|p: int| 0 <= p < order.len() - 1 ==> #[trigger] run.1[p] is None
            &&& forall|p: int| 0 <= p < order.len() ==> #[trigger] run.2[p] == seen_within(order, p, order[p])
        }),
{
    let pb = fragment_budget(frame_budget);
    let total = fragment_count(payload.len() as int, pb);
    let raws = order.map_values(|i: int| fragment_frame(group, stream_id, payload, pb, total, i));
    let frames = order.map_values(|i: int| fragment_view(group, stream_id, payload, pb, total, i));
    let k = payload_stream_key(group, stream_id);
    lemma_fragments_reassemble_in_any_order(group, stream_id, payload, frame_budget, order);
    lemma_accept_run_follows_stream(table, group, stream_id, payload, frame_budget, order, k, order.len() as int);
    assert(raws.take(order.len() as int) =~= raws);
    assert(frames.take(order.len() as int) =~= frames);
    let sr = stream_run(None, frames);
    assert(table.update(k, sr.0) =~= table);
    assert forall|p: int| 0 <= p < order.len() implies #[trigger] accept_run(table, raws).2[p] == seen_within(order, p, order[p]) by {
        let st = stream_or_empty(stream_run(None, frames.take(p)).0);
        assert(step_duplicate(st, frames[p]) == seen_within(order, p, order[p]));
    }
}

/// Accepting the first `m` encoded frames runs the stream of those fragments in the
/// table's entry for the stream, and leaves the other entries alone.
proof fn lemma_accept_run_follows_stream(
    table: Seq<Option<StreamView>>,
    group: PayloadGroup,
    stream_id: u8,
    payload: Seq<u8>,
    frame_budget: usize,
    order: Seq<int>,
    k: int,
    m: int,
)
    requires
        table.len() == STREAM_TABLE_LEN,
        frame_budget >= 5,
        1 <= fragment_count(payload.len() as int, fragment_budget(frame_budget)) <= 255,
        k == payload_stream_key(group, stream_id),
        table[k] is None,
        0 <= m <= order.len(),
        forall|p: int|
            0 <= p < order.len() ==> 0 <= #[trigger] order[p] < fragment_count(
                payload.len() as int,
                fragment_budget(frame_budget),
            ),
    ensures
        ({
            let pb = fragment_budget(frame_budget);
            let total = fragment_count(payload.len() as int, pb);
            let raws = order.map_values(
                |i: int| fragment_frame(group, stream_id, payload, pb, total, i),
            );
            let frames = order.map_values(
                |i: int| fragment_view(group, stream_id, payload, pb, total, i),
            );
            let run = accept_run(table, raws.take(m));
            let sr = stream_run(None, frames.take(m));
            &&& run.0 == table.update(k, sr.0)
            &&& run.1 == sr.1
            &&& run.2.len() == m
            &&& forall|p: int| 0 <= p < m ==> #[trigger] run.2[p] == step_duplicate(
                stream_or_empty(stream_run(None, frames.take(p)).0),
                frames[p],
            )
        }),
    decreases m,
{
    let pb = fragment_budget(frame_budget);
    let total = fragment_count(payload.len() as int, pb);
    let raws = order.map_values(|i: int| fragment_frame(group, stream_id, payload, pb, total, i));
    let frames = order.map_values(|i: int| fragment_view(group, stream_id, payload, pb, total, i));
    if m == 0 {
        assert(raws.take(0) =~= Seq::<Seq<u8>>::empty());
        assert(frames.take(0) =~= Seq::<FrameView>::empty());
        assert(table.update(k, None) =~= table);
    } else {
        lemma_accept_run_follows_stream(table, group, stream_id, payload, frame_budget, order, k, m - 1);
        assert(raws.take(m).drop_last() =~= raws.take(m - 1));
        assert(frames.take(m).drop_last() =~= frames.take(m - 1));
        let i = order[m - 1];
        lemma_fragment_frame_decodes(group, stream_id, payload, frame_budget, i);
        let f = frames[m - 1];
        assert(raws.take(m).last() == fragment_frame(group, stream_id, payload, pb, total, i));
        assert(frames.take(m).last() == f);
        assert(decode_result(raws.take(m).last()) == Ok::<FrameView, TransportError>(f));
        assert(f.kind.carries_payload());
        assert(stream_key(f) == k);
        let before = accept_run(table, raws.take(m - 1));
        let sb = stream_run(None, frames.take(m - 1));
        assert(before.0[k] == sb.0);
        assert(accept_run(table, raws.take(m)).0 =~= table.update(k, stream_run(None, frames.take(m)).0));
        let run = accept_run(table, raws.take(m));
        assert forall|p: int| 0 <= p < m implies #[trigger] run.2[p] == step_duplicate(
            stream_or_empty(stream_run(None, frames.take(p)).0),
            frames[p],
        ) by {
            if p < m - 1 {
                assert(run.2[p] == before.2[p]);
            } else {
                assert(frames.take(m - 1) =~= frames.take(p));
            }
        }
    }
}

} // verus!
