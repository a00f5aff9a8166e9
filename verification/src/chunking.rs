use vstd::prelude::*;
use vstd::string::StrSliceExecFns;

use crate::json::{entry_value, find_entry, JsonEntry, JsonNumber, JsonValue};
use crate::protocol::{
    CommandResponse, ProtocolError, ProtocolErrorView, ResponsePhase, PROTOCOL_VERSION,
};
use crate::receipt::{chunk_receipt, receipt_for, ChunkReceipt, ReceiptView};
use crate::text::{join_texts, joined, string_views, text, text_eq};

verus! {

/// The error for a chunk whose mode is not `response_json`.
pub open spec fn unsupported_mode_text() -> Seq<char> {
    "unsupported chunk mode"@
}

/// The error for a `data.chunk` that is neither a `response_json` chunk nor an
/// `{index, total}` chunk header.
pub open spec fn bad_meta_text() -> Seq<char> {
    "chunk metadata needs a numeric index and total"@
}

/// A size as the wire carries it: a non-negative integer that fits `usize`.
pub open spec fn size_value(v: Option<JsonValue>) -> Option<usize> {
    match v {
        Some(JsonValue::Number(JsonNumber::Unsigned(u))) => if u <= usize::MAX {
            Some(u as usize)
        } else {
            None
        },
        _ => None,
    }
}

pub open spec fn text_member(v: Option<JsonValue>) -> Option<Seq<char>> {
    match v {
        Some(JsonValue::String(s)) => Some(s@),
        _ => None,
    }
}

/// A `response_json` chunk as values.
pub struct JsonChunkView {
    pub mode: Seq<char>,
    pub index: usize,
    pub total: usize,
    pub payload: Seq<char>,
}

pub open spec fn json_chunk_parts(
    mode: Option<Seq<char>>,
    index: Option<usize>,
    total: Option<usize>,
    payload: Option<Seq<char>>,
) -> Option<JsonChunkView> {
    if mode is Some && index is Some && total is Some && payload is Some {
        Some(
            JsonChunkView {
                mode: mode->0,
                index: index->0,
                total: total->0,
                payload: payload->0,
            },
        )
    } else {
        None
    }
}

/// The chunk that `v` describes, read as a record of `mode`, `index`, `total` and
/// `payload`: an object with those members (others are ignored) or an array of exactly
/// those four values in that order.
pub open spec fn json_chunk_of(v: JsonValue) -> Option<JsonChunkView> {
    match v {
        JsonValue::Object(es) => json_chunk_parts(
            text_member(entry_value(es@, "mode"@)),
            size_value(entry_value(es@, "index"@)),
            size_value(entry_value(es@, "total"@)),
            text_member(entry_value(es@, "payload"@)),
        ),
        JsonValue::Array(xs) => if xs@.len() == 4 {
            json_chunk_parts(
                text_member(Some(xs@[0])),
                size_value(Some(xs@[1])),
                size_value(Some(xs@[2])),
                text_member(Some(xs@[3])),
            )
        } else {
            None
        },
        _ => None,
    }
}

/// The chunk header that `v` describes, read as a record of `index` and `total`: an
/// object with those members or an array of exactly those two values.
pub open spec fn chunk_meta_of(v: JsonValue) -> Option<(usize, usize)> {
    match v {
        JsonValue::Object(es) => match (
            size_value(entry_value(es@, "index"@)),
            size_value(entry_value(es@, "total"@)),
        ) {
            (Some(i), Some(t)) => Some((i, t)),
            _ => None,
        },
        JsonValue::Array(xs) => if xs@.len() == 2 {
            match (size_value(Some(xs@[0])), size_value(Some(xs@[1]))) {
                (Some(i), Some(t)) => Some((i, t)),
                _ => None,
            }
        } else {
            None
        },
        _ => None,
    }
}

/// How a response's `data.chunk` reads.
pub enum ChunkRead {
    /// No `data.chunk`: a whole response.
    Plain,
    /// A piece of a response sent as its JSON text.
    Json(JsonChunkView),
    /// A `response_json`-shaped chunk with another mode.
    Unsupported,
    /// A piece of a response's text, numbered `index` of `total`.
    Legacy(usize, usize),
    /// Neither shape.
    BadMeta,
}

pub open spec fn chunk_read(data: Option<Vec<JsonEntry>>) -> ChunkRead {
    match data {
        None => ChunkRead::Plain,
        Some(d) => match entry_value(d@, "chunk"@) {
            None => ChunkRead::Plain,
            Some(c) => match json_chunk_of(c) {
                Some(j) => if j.mode == "response_json"@ {
                    ChunkRead::Json(j)
                } else {
                    ChunkRead::Unsupported
                },
                None => match chunk_meta_of(c) {
                    Some((i, t)) => ChunkRead::Legacy(i, t),
                    None => ChunkRead::BadMeta,
                },
            },
        },
    }
}

/// The members of `es` other than those named `key`.
pub open spec fn without_key(es: Seq<JsonEntry>, key: Seq<char>) -> Seq<JsonEntry>
    decreases es.len(),
{
    if es.len() == 0 {
        Seq::empty()
    } else {
        let rest = without_key(es.drop_last(), key);
        if es.last().key@ == key {
            rest
        } else {
            rest.push(es.last())
        }
    }
}

/// What the data of a legacy chunk leaves besides its header, when anything.
pub open spec fn rest_data(data: Option<Vec<JsonEntry>>) -> Option<Seq<JsonEntry>> {
    match data {
        None => None,
        Some(d) => {
            let rest = without_key(d@, "chunk"@);
            if rest.len() == 0 {
                None
            } else {
                Some(rest)
            }
        },
    }
}

/// One response being assembled, as values.
pub struct SessionView {
    pub response_id: Seq<char>,
    pub total: usize,
    pub received: usize,
    pub parts: Seq<Seq<char>>,
    pub final_data: Option<Seq<JsonEntry>>,
    pub code: Seq<char>,
    pub ok: bool,
    pub version: Seq<char>,
}

/// A response as values.
pub struct ResponseFields {
    pub id: Seq<char>,
    pub cmd: Option<Seq<char>>,
    pub phase: ResponsePhase,
    pub seq: u64,
    pub final_flag: bool,
    pub ok: bool,
    pub code: Seq<char>,
    pub text: Seq<char>,
    pub data: Option<Seq<JsonEntry>>,
    pub v: Seq<char>,
}

pub open spec fn response_fields(r: CommandResponse) -> ResponseFields {
    ResponseFields {
        id: r.id@,
        cmd: match r.cmd {
            Some(c) => Some(c@),
            None => None,
        },
        phase: r.phase,
        seq: r.seq,
        final_flag: r.final_flag,
        ok: r.ok,
        code: r.code@,
        text: r.text@,
        data: match r.data {
            Some(d) => Some(d@),
            None => None,
        },
        v: r.v@,
    }
}

/// What one response does to the assembly, as values.
pub enum OutcomeView {
    /// A chunk was kept; the response is not whole yet.
    Pending,
    /// A whole response: one that was not chunked, or one assembled from legacy chunks.
    Complete(ResponseFields),
    /// The JSON text of a response assembled from `response_json` chunks.
    JsonText(Seq<char>),
}

/// The position of the first session for `id`, or -1.
pub open spec fn first_index(s: Seq<SessionView>, id: Seq<char>) -> int
    decreases s.len(),
{
    if s.len() == 0 {
        -1
    } else if s[0].response_id == id {
        0
    } else {
        let r = first_index(s.drop_first(), id);
        if r < 0 {
            -1
        } else {
            r + 1
        }
    }
}

/// `n` empty parts.
pub open spec fn empty_parts(n: nat) -> Seq<Seq<char>> {
    Seq::new(n, |i: int| Seq::<char>::empty())
}

/// The session for a chunk of response `id`: the one under way, else a new one with the
/// given total and response metadata.
pub open spec fn session_for(
    s: Seq<SessionView>,
    id: Seq<char>,
    total: usize,
    code: Seq<char>,
    ok: bool,
    version: Seq<char>,
) -> SessionView {
    let k = first_index(s, id);
    if k >= 0 {
        s[k]
    } else {
        SessionView {
            response_id: id,
            total,
            received: 0,
            parts: empty_parts(total as nat),
            final_data: None,
            code,
            ok,
            version,
        }
    }
}

/// `s` with the session for `id` set to `x`: replaced where it was, or added at the end.
pub open spec fn put_session(s: Seq<SessionView>, id: Seq<char>, x: SessionView) -> Seq<SessionView> {
    let k = first_index(s, id);
    if k >= 0 {
        s.update(k, x)
    } else {
        s.push(x)
    }
}

/// `s` without the session for `id`.
pub open spec fn drop_session(s: Seq<SessionView>, id: Seq<char>) -> Seq<SessionView> {
    let k = first_index(s, id);
    if k >= 0 {
        s.remove(k)
    } else {
        s
    }
}

/// Stores piece `index` (counted from 1) of `chunk_total`: a piece in range fills its
/// slot, and counts as received when the slot was empty and the piece is not.
pub open spec fn with_piece(x: SessionView, index: usize, chunk_total: usize, piece: Seq<char>) -> SessionView {
    if 0 < index <= chunk_total {
        SessionView {
            received: if x.parts[index - 1].len() == 0 && piece.len() > 0 {
                (x.received + 1) as usize
            } else {
                x.received
            },
            parts: x.parts.update(index - 1, piece),
            ..x
        }
    } else {
        x
    }
}

/// Storing the piece would index past the parts of a session started with a smaller total,
/// or overflow its count.
pub open spec fn piece_faults(x: SessionView, index: usize, chunk_total: usize, piece: Seq<char>) -> bool {
    0 < index <= chunk_total && (index > x.parts.len() || (x.parts[index - 1].len() == 0
        && piece.len() > 0 && x.received == usize::MAX))
}

/// Whether assembling `resp` on `s` cannot go on.
pub open spec fn chunk_faults(s: Seq<SessionView>, resp: CommandResponse) -> bool {
    match chunk_read(resp.data) {
        ChunkRead::Json(j) => piece_faults(
            session_for(s, resp.id@, j.total, Seq::empty(), true, PROTOCOL_VERSION@),
            j.index,
            j.total,
            j.payload,
        ),
        ChunkRead::Legacy(i, t) => piece_faults(
            session_for(s, resp.id@, t, resp.code@, resp.ok, resp.v@),
            i,
            t,
            resp.text@,
        ),
        _ => false,
    }
}

/// What one response does to the sessions `s`. A whole response passes through. A
/// `response_json` chunk fills its slot; once every slot is counted the joined text is
/// handed out for parsing. A legacy chunk fills its slot with its text and keeps the rest
/// of its data; once every slot is counted, or when it is the one chunk of one, the
/// response is rebuilt from the first chunk's code, status and version, the joined text
/// and the latest data.
pub open spec fn chunk_step(s: Seq<SessionView>, resp: CommandResponse) -> (Seq<SessionView>, Result<OutcomeView, ProtocolErrorView>) {
    let id = resp.id@;
    match chunk_read(resp.data) {
        ChunkRead::Plain => (s, Ok(OutcomeView::Complete(response_fields(resp)))),
        ChunkRead::Unsupported => (s, Err(ProtocolErrorView::BadRequest(unsupported_mode_text()))),
        ChunkRead::BadMeta => (s, Err(ProtocolErrorView::BadJson(bad_meta_text()))),
        ChunkRead::Json(j) => {
            let x = with_piece(
                session_for(s, id, j.total, Seq::empty(), true, PROTOCOL_VERSION@),
                j.index,
                j.total,
                j.payload,
            );
            if x.received == x.total {
                (drop_session(s, id), Ok(OutcomeView::JsonText(joined(x.parts, Seq::empty()))))
            } else {
                (put_session(s, id, x), Ok(OutcomeView::Pending))
            }
        },
        ChunkRead::Legacy(i, t) => {
            let y = with_piece(session_for(s, id, t, resp.code@, resp.ok, resp.v@), i, t, resp.text@);
            let x = match rest_data(resp.data) {
                Some(d) => SessionView { final_data: Some(d), ..y },
                None => y,
            };
            if x.received == x.total || (i == t && t == 1) {
                (
                    drop_session(s, id),
                    Ok(
                        OutcomeView::Complete(
                            ResponseFields {
                                id,
                                cmd: None,
                                phase: ResponsePhase::Result,
                                seq: 1,
                                final_flag: true,
                                ok: x.ok,
                                code: x.code,
                                text: joined(x.parts, Seq::empty()),
                                data: x.final_data,
                                v: x.version,
                            },
                        ),
                    ),
                )
            } else {
                (put_session(s, id, x), Ok(OutcomeView::Pending))
            }
        },
    }
}

/// No two sessions assemble the same response.
pub open spec fn ids_unique(s: Seq<SessionView>) -> bool {
    forall|i: int, j: int|
        0 <= i < j < s.len() ==> #[trigger] s[i].response_id != #[trigger] s[j].response_id
}

proof fn lemma_first_index_found(s: Seq<SessionView>, id: Seq<char>)
    ensures
        -1 <= first_index(s, id) < s.len(),
        first_index(s, id) >= 0 ==> s[first_index(s, id)].response_id == id,
        first_index(s, id) >= 0 ==> forall|i: int|
            0 <= i < first_index(s, id) ==> #[trigger] s[i].response_id != id,
        first_index(s, id) < 0 ==> forall|i: int| 0 <= i < s.len() ==> #[trigger] s[i].response_id != id,
    decreases s.len(),
{
    if s.len() > 0 && s[0].response_id != id {
        lemma_first_index_found(s.drop_first(), id);
        assert forall|i: int| 1 <= i < s.len() implies #[trigger] s[i] == s.drop_first()[i - 1] by {}
    }
}

/// The sessions as a table keyed by response id.
pub open spec fn session_table(s: Seq<SessionView>) -> Map<Seq<char>, SessionView> {
    Map::new(|id: Seq<char>| first_index(s, id) >= 0, |id: Seq<char>| s[first_index(s, id)])
}

proof fn lemma_put_keeps_others(s: Seq<SessionView>, id: Seq<char>, x: SessionView, id2: Seq<char>)
    requires
        x.response_id == id,
    ensures
        first_index(put_session(s, id, x), id) >= 0,
        id2 != id ==> (first_index(put_session(s, id, x), id2) >= 0) == (first_index(s, id2) >= 0),
        id2 != id && first_index(s, id2) >= 0 ==> put_session(s, id, x)[first_index(
            put_session(s, id, x),
            id2,
        )] == s[first_index(s, id2)],
{
    if id2 == id {
        lemma_first_index_found(s, id);
        lemma_first_index_found(put_session(s, id, x), id);
        if first_index(s, id) >= 0 {
            assert(put_session(s, id, x)[first_index(s, id)].response_id == id);
        } else {
            assert(put_session(s, id, x)[s.len() as int].response_id == id);
        }
        return;
    }
    let t = put_session(s, id, x);
    lemma_first_index_found(s, id);
    lemma_first_index_found(s, id2);
    lemma_first_index_found(t, id);
    let k = first_index(s, id);
    let k2 = first_index(s, id2);
    if k >= 0 {
        assert(t[k].response_id == id);
    } else {
        assert(t[s.len() as int].response_id == id);
    }
    assert forall|j: int| 0 <= j < t.len() && j < s.len() implies (#[trigger] t[j].response_id == id2)
        == (s[j].response_id == id2) && (t[j].response_id == id2 ==> t[j] == s[j]) by {
        if k >= 0 && j == k {
            assert(t[j] == x);
        }
    }
    if k < 0 {
        assert(t[s.len() as int] == x);
    }
    if k2 >= 0 {
        lemma_first_index(t, id2, k2);
    } else {
        lemma_first_index(t, id2, t.len() as int);
    }
}

proof fn lemma_drop_keeps_others(s: Seq<SessionView>, id: Seq<char>, id2: Seq<char>)
    requires
        ids_unique(s),
    ensures
        first_index(drop_session(s, id), id) < 0,
        id2 != id ==> (first_index(drop_session(s, id), id2) >= 0) == (first_index(s, id2) >= 0),
        id2 != id && first_index(s, id2) >= 0 ==> drop_session(s, id)[first_index(
            drop_session(s, id),
            id2,
        )] == s[first_index(s, id2)],
{
    let t = drop_session(s, id);
    lemma_first_index_found(s, id);
    lemma_first_index_found(s, id2);
    let k = first_index(s, id);
    let k2 = first_index(s, id2);
    if k >= 0 {
        assert forall|j: int| 0 <= j < t.len() implies #[trigger] t[j] == if j < k {
            s[j]
        } else {
            s[j + 1]
        } by {}
        assert forall|j: int| 0 <= j < t.len() implies #[trigger] t[j].response_id != id by {
            if j < k {
                assert(s[j].response_id != s[k].response_id);
            } else {
                assert(s[k].response_id != s[j + 1].response_id);
            }
        }
        lemma_first_index(t, id, t.len() as int);
        if id2 == id {
        } else if k2 >= 0 {
            assert(k2 != k);
            let p = if k2 < k { k2 } else { k2 - 1 };
            assert forall|j: int| 0 <= j < p implies #[trigger] t[j].response_id != id2 by {
                if j < k {
                    assert(t[j] == s[j]);
                } else {
                    assert(t[j] == s[j + 1]);
                }
            }
            lemma_first_index(t, id2, p);
        } else {
            assert forall|j: int| 0 <= j < t.len() implies #[trigger] t[j].response_id != id2 by {
                if j < k {
                    assert(t[j] == s[j]);
                } else {
                    assert(t[j] == s[j + 1]);
                }
            }
            lemma_first_index(t, id2, t.len() as int);
        }
    } else {
        lemma_first_index(t, id, t.len() as int);
    }
}

/// Assembly works on one session at a time: a step leaves the session of every other
/// response as it was. A kept chunk leaves its response's session under way; a response
/// completed from chunks leaves none; a whole response or a refused chunk changes nothing.
pub proof fn lemma_chunk_step_touches_one_session(s: Seq<SessionView>, resp: CommandResponse)
    requires
        ids_unique(s),
    ensures
        ({
            let id = resp.id@;
            let (t, out) = chunk_step(s, resp);
            &&& session_table(t).remove(id) == session_table(s).remove(id)
            &&& (out matches Ok(OutcomeView::Pending) ==> session_table(t).contains_key(id))
            &&& (out matches Ok(OutcomeView::JsonText(_)) ==> !session_table(t).contains_key(id))
            &&& (chunk_read(resp.data) is Legacy && out is Ok && !(out matches Ok(
                OutcomeView::Pending,
            )) ==> !session_table(t).contains_key(id))
            &&& (chunk_read(resp.data) is Plain || out is Err ==> t == s)
        }),
{
    let id = resp.id@;
    let (t, out) = chunk_step(s, resp);
    let x = match chunk_read(resp.data) {
        ChunkRead::Json(j) => with_piece(
            session_for(s, id, j.total, Seq::empty(), true, PROTOCOL_VERSION@),
            j.index,
            j.total,
            j.payload,
        ),
        ChunkRead::Legacy(i, n) => {
            let y = with_piece(session_for(s, id, n, resp.code@, resp.ok, resp.v@), i, n, resp.text@);
            match rest_data(resp.data) {
                Some(d) => SessionView { final_data: Some(d), ..y },
                None => y,
            }
        },
        _ => session_for(s, id, 0, Seq::empty(), true, PROTOCOL_VERSION@),
    };
    lemma_first_index_found(s, id);
    assert(x.response_id == id);
    match chunk_read(resp.data) {
        ChunkRead::Json(_) | ChunkRead::Legacy(_, _) => {
            if t == put_session(s, id, x) {
                assert forall|id2: Seq<char>| id2 != id implies ((#[trigger] first_index(t, id2) >= 0)
                    == (first_index(s, id2) >= 0) && (first_index(s, id2) >= 0 ==> t[first_index(
                    t,
                    id2,
                )] == s[first_index(s, id2)])) by {
                    lemma_put_keeps_others(s, id, x, id2);
                }
                lemma_put_keeps_others(s, id, x, id);
            } else {
                assert(t == drop_session(s, id));
                assert forall|id2: Seq<char>| id2 != id implies ((#[trigger] first_index(t, id2) >= 0)
                    == (first_index(s, id2) >= 0) && (first_index(s, id2) >= 0 ==> t[first_index(
                    t,
                    id2,
                )] == s[first_index(s, id2)])) by {
                    lemma_drop_keeps_others(s, id, id2);
                }
                lemma_drop_keeps_others(s, id, id);
            }
            assert(session_table(t).remove(id) =~= session_table(s).remove(id));
        },
        _ => {},
    }
}


/// Assembly keeps one session per response: once the sessions are keyed by response id,
/// every step leaves them so, whatever response arrives.
pub proof fn lemma_chunk_step_keeps_one_session_per_response(s: Seq<SessionView>, resp: CommandResponse)
    requires
        ids_unique(s),
    ensures
        ids_unique(chunk_step(s, resp).0),
{
    let id = resp.id@;
    lemma_first_index_found(s, id);
    let k = first_index(s, id);
    assert forall|x: SessionView| x.response_id == id implies ids_unique(#[trigger] put_session(s, id, x)) by {
        let t = put_session(s, id, x);
        if k < 0 {
            assert forall|i: int, j: int| 0 <= i < j < t.len() implies #[trigger] t[i].response_id
                != #[trigger] t[j].response_id by {
                if j == s.len() {
                    assert(t[i] == s[i]);
                }
            }
        }
    }
    if k >= 0 {
        let t = s.remove(k);
        assert forall|i: int, j: int| 0 <= i < j < t.len() implies #[trigger] t[i].response_id
            != #[trigger] t[j].response_id by {
            let i2 = if i < k { i } else { i + 1 };
            let j2 = if j < k { j } else { j + 1 };
            assert(t[i] == s[i2] && t[j] == s[j2]);
        }
    }
    match chunk_read(resp.data) {
        ChunkRead::Json(j) => {
            let x = with_piece(
                session_for(s, id, j.total, Seq::empty(), true, PROTOCOL_VERSION@),
                j.index,
                j.total,
                j.payload,
            );
            assert(x.response_id == id);
            assert(ids_unique(put_session(s, id, x)));
        },
        ChunkRead::Legacy(i, t) => {
            let y = with_piece(session_for(s, id, t, resp.code@, resp.ok, resp.v@), i, t, resp.text@);
            let x = match rest_data(resp.data) {
                Some(d) => SessionView { final_data: Some(d), ..y },
                None => y,
            };
            assert(x.response_id == id);
            assert(ids_unique(put_session(s, id, x)));
        },
        _ => {},
    }
}

/// What one response did to the assembly.
pub enum ChunkOutcome {
    Pending,
    Complete(CommandResponse),
    JsonText(String),
}

pub open spec fn outcome_view(r: Result<ChunkOutcome, ProtocolError>) -> Result<OutcomeView, ProtocolErrorView> {
    match r {
        Ok(ChunkOutcome::Pending) => Ok(OutcomeView::Pending),
        Ok(ChunkOutcome::Complete(c)) => Ok(OutcomeView::Complete(response_fields(c))),
        Ok(ChunkOutcome::JsonText(t)) => Ok(OutcomeView::JsonText(t@)),
        Err(e) => Err(e@),
    }
}

struct ChunkSession {
    response_id: String,
    total: usize,
    received: usize,
    parts: Vec<String>,
    final_data: Option<Vec<JsonEntry>>,
    code: String,
    ok: bool,
    version: String,
}

impl ChunkSession {
    spec fn view_session(&self) -> SessionView {
        SessionView {
            response_id: self.response_id@,
            total: self.total,
            received: self.received,
            parts: string_views(self.parts@),
            final_data: match self.final_data {
                Some(d) => Some(d@),
                None => None,
            },
            code: self.code@,
            ok: self.ok,
            version: self.version@,
        }
    }
}

/// Responses being assembled from chunks, one session per response identifier.
pub struct ChunkAssembler {
    sessions: Vec<ChunkSession>,
}

impl View for ChunkAssembler {
    type V = Seq<SessionView>;

    closed spec fn view(&self) -> Seq<SessionView> {
        self.sessions@.map_values(|x: ChunkSession| x.view_session())
    }
}

proof fn lemma_first_index(s: Seq<SessionView>, id: Seq<char>, k: int)
    requires
        0 <= k <= s.len(),
        forall|j: int| 0 <= j < k ==> #[trigger] s[j].response_id != id,
        k < s.len() ==> s[k].response_id == id,
    ensures
        first_index(s, id) == if k < s.len() { k } else { -1 },
    decreases k,
{
    if s.len() > 0 && k > 0 {
        assert forall|j: int| 0 <= j < k - 1 implies #[trigger] s.drop_first()[j].response_id != id by {
            assert(s.drop_first()[j] == s[j + 1]);
        }
        lemma_first_index(s.drop_first(), id, k - 1);
    }
}

proof fn lemma_without_key_step(es: Seq<JsonEntry>, key: Seq<char>, i: int)
    requires
        0 <= i < es.len(),
    ensures
        without_key(es.subrange(0, i + 1), key) == if es[i].key@ == key {
            without_key(es.subrange(0, i), key)
        } else {
            without_key(es.subrange(0, i), key).push(es[i])
        },
{
    assert(es.subrange(0, i + 1).drop_last() =~= es.subrange(0, i));
}

fn size_member(v: Option<&JsonValue>) -> (r: Option<usize>)
    ensures
        r == size_value(match v {
            Some(x) => Some(*x),
            None => None,
        }),
{
    match v {
        Some(JsonValue::Number(JsonNumber::Unsigned(u))) => {
            if *u <= usize::MAX as u64 {
                Some(*u as usize)
            } else {
                None
            }
        },
        _ => None,
    }
}

fn text_of(v: Option<&JsonValue>) -> (r: Option<String>)
    ensures
        match r {
            Some(t) => text_member(match v {
                Some(x) => Some(*x),
                None => None,
            }) == Some(t@),
            None => text_member(match v {
                Some(x) => Some(*x),
                None => None,
            }) is None,
        },
{
    match v {
        Some(JsonValue::String(s)) => Some(text(s.as_str())),
        _ => None,
    }
}

fn member<'a>(es: &'a Vec<JsonEntry>, key: &str) -> (r: Option<&'a JsonValue>)
    ensures
        match r {
            Some(x) => entry_value(es@, key@) == Some(*x),
            None => entry_value(es@, key@) is None,
        },
{
    match find_entry(es, key) {
        Some(i) => Some(&es[i].value),
        None => None,
    }
}

/// A `response_json`-shaped chunk read from `v`, with its mode.
fn read_json_chunk(v: &JsonValue) -> (r: Option<(String, usize, usize, String)>)
    ensures
        match json_chunk_of(*v) {
            Some(j) => r matches Some((m, i, t, p)) && m@ == j.mode && i == j.index && t == j.total
                && p@ == j.payload,
            None => r is None,
        },
{
    let (m, i, t, p) = match v {
        JsonValue::Object(es) => (
            text_of(member(es, "mode")),
            size_member(member(es, "index")),
            size_member(member(es, "total")),
            text_of(member(es, "payload")),
        ),
        JsonValue::Array(xs) => {
            if xs.len() != 4 {
                return None;
            }
            (text_of(Some(&xs[0])), size_member(Some(&xs[1])), size_member(Some(&xs[2])), text_of(Some(&xs[3])))
        },
        _ => {
            return None;
        },
    };
    match (m, i, t, p) {
        (Some(m), Some(i), Some(t), Some(p)) => Some((m, i, t, p)),
        _ => None,
    }
}

/// A chunk header read from `v`.
fn read_chunk_meta(v: &JsonValue) -> (r: Option<(usize, usize)>)
    ensures
        r == chunk_meta_of(*v),
{
    let (i, t) = match v {
        JsonValue::Object(es) => (size_member(member(es, "index")), size_member(member(es, "total"))),
        JsonValue::Array(xs) => {
            if xs.len() != 2 {
                return None;
            }
            (size_member(Some(&xs[0])), size_member(Some(&xs[1])))
        },
        _ => {
            return None;
        },
    };
    match (i, t) {
        (Some(i), Some(t)) => Some((i, t)),
        _ => None,
    }
}

/// How `data.chunk` of a response reads.
pub enum ChunkTag {
    Plain,
    Json { index: usize, total: usize, payload: String },
    Unsupported,
    Legacy { index: usize, total: usize },
    BadMeta,
}

pub open spec fn tag_matches(t: ChunkTag, r: ChunkRead) -> bool {
    match (t, r) {
        (ChunkTag::Plain, ChunkRead::Plain) => true,
        (ChunkTag::Unsupported, ChunkRead::Unsupported) => true,
        (ChunkTag::BadMeta, ChunkRead::BadMeta) => true,
        (ChunkTag::Json { index, total, payload }, ChunkRead::Json(j)) => index == j.index && total
            == j.total && payload@ == j.payload,
        (ChunkTag::Legacy { index, total }, ChunkRead::Legacy(i, t)) => index == i && total == t,
        _ => false,
    }
}

fn read_chunk(data: &Option<Vec<JsonEntry>>) -> (r: ChunkTag)
    ensures
        tag_matches(r, chunk_read(*data)),
{
    let d = match data {
        Some(d) => d,
        None => {
            return ChunkTag::Plain;
        },
    };
    let c = match member(d, "chunk") {
        Some(c) => c,
        None => {
            return ChunkTag::Plain;
        },
    };
    proof {
        reveal_strlit("response_json");
    }
    match read_json_chunk(c) {
        Some((m, index, total, payload)) => {
            if text_eq(m.as_str(), "response_json") {
                ChunkTag::Json { index, total, payload }
            } else {
                ChunkTag::Unsupported
            }
        },
        None => match read_chunk_meta(c) {
            Some((index, total)) => ChunkTag::Legacy { index, total },
            None => ChunkTag::BadMeta,
        },
    }
}

/// The data members other than `chunk`, when any are left.
fn rest_of(data: Option<Vec<JsonEntry>>) -> (r: Option<Vec<JsonEntry>>)
    ensures
        match r {
            Some(v) => rest_data(data) == Some(v@),
            None => rest_data(data) is None,
        },
{
    let d = match data {
        Some(d) => d,
        None => {
            return None;
        },
    };
    let ghost all = d@;
    let mut rest = d;
    let mut out: Vec<JsonEntry> = Vec::new();
    let mut i: usize = 0;
    assert(all.len() == rest.len());
    while rest.len() > 0
        invariant
            all.len() <= usize::MAX,
            i <= all.len(),
            rest@ == all.subrange(i as int, all.len() as int),
            out@ == without_key(all.subrange(0, i as int), "chunk"@),
        decreases rest@.len(),
    {
        let e = rest.remove(0);
        assert(e == all[i as int]);
        proof {
            lemma_without_key_step(all, "chunk"@, i as int);
        }
        if !text_eq(e.key.as_str(), "chunk") {
            out.push(e);
        }
        i = i + 1;
        assert(rest@ =~= all.subrange(i as int, all.len() as int));
    }
    assert(all.subrange(0, all.len() as int) =~= all);
    if out.len() == 0 {
        None
    } else {
        Some(out)
    }
}

impl ChunkAssembler {
    pub fn new() -> (r: ChunkAssembler)
        ensures
            r@ == Seq::<SessionView>::empty(),
            session_table(r@) == Map::<Seq<char>, SessionView>::empty(),
            ids_unique(r@),
    {
        let r = ChunkAssembler { sessions: Vec::new() };
        assert(r@ =~= Seq::<SessionView>::empty());
        assert(session_table(r@) =~= Map::<Seq<char>, SessionView>::empty());
        r
    }

    /// The position of the session for `id`, if one is under way.
    fn find(&self, id: &str) -> (r: Option<usize>)
        ensures
            match r {
                Some(k) => first_index(self@, id@) == k as int && k < self@.len(),
                None => first_index(self@, id@) == -1,
            },
    {
        let mut k: usize = 0;
        while k < self.sessions.len()
            invariant
                k <= self.sessions@.len(),
                forall|j: int| 0 <= j < k ==> #[trigger] self@[j].response_id != id@,
            decreases self.sessions@.len() - k,
        {
            if text_eq(self.sessions[k].response_id.as_str(), id) {
                proof {
                    lemma_first_index(self@, id@, k as int);
                }
                return Some(k);
            }
            k = k + 1;
        }
        proof {
            lemma_first_index(self@, id@, k as int);
        }
        None
    }

    /// Takes out the session for `id`, or starts one with the given total and metadata.
    fn take_session(&mut self, id: &str, total: usize, code: &str, ok: bool, version: &str) -> (r: (ChunkSession, Option<usize>))
        ensures
            r.0.view_session() == session_for(old(self)@, id@, total, code@, ok, version@),
            match r.1 {
                Some(k) => first_index(old(self)@, id@) == k as int && k < old(self)@.len()
                    && final(self)@ == old(self)@.remove(k as int),
                None => first_index(old(self)@, id@) == -1 && final(self)@ == old(self)@,
            },
    {
        match self.find(id) {
            Some(k) => {
                let x = self.sessions.remove(k);
                assert(self@ =~= old(self)@.remove(k as int));
                (x, Some(k))
            },
            None => {
                proof {
                    reveal_strlit("");
                }
                let mut parts: Vec<String> = Vec::new();
                let mut n: usize = 0;
                while n < total
                    invariant
                        n <= total,
                        parts@.len() == n,
                        forall|i: int| 0 <= i < n ==> (#[trigger] parts@[i])@ == Seq::<char>::empty(),
                    decreases total - n,
                {
                    proof {
                        reveal_strlit("");
                    }
                    let e = text("");
                    assert(e@ =~= Seq::<char>::empty());
                    parts.push(e);
                    n = n + 1;
                }
                assert(string_views(parts@) =~= empty_parts(total as nat));
                let x = ChunkSession {
                    response_id: text(id),
                    total,
                    received: 0,
                    parts,
                    final_data: None,
                    code: text(code),
                    ok,
                    version: text(version),
                };
                (x, None)
            },
        }
    }

    /// Whether `resp` is a chunk that cannot be stored: one numbered past the parts of a
    /// session that another chunk started with a smaller total, or one that would overflow
    /// the count of received parts.
    pub fn add_would_fault(&self, resp: &CommandResponse) -> (r: bool)
        ensures
            r == chunk_faults(self@, *resp),
    {
        match read_chunk(&resp.data) {
            ChunkTag::Json { index, total, payload } => {
                proof {
                    reveal_strlit("");
                }
                assert(""@ =~= Seq::<char>::empty());
                self.piece_would_fault(resp.id.as_str(), index, total, payload.as_str(), total, "", true, PROTOCOL_VERSION)
            },
            ChunkTag::Legacy { index, total } => self.piece_would_fault(
                resp.id.as_str(),
                index,
                total,
                resp.text.as_str(),
                total,
                resp.code.as_str(),
                resp.ok,
                resp.v.as_str(),
            ),
            _ => false,
        }
    }

    fn piece_would_fault(
        &self,
        id: &str,
        index: usize,
        chunk_total: usize,
        piece: &str,
        total: usize,
        code: &str,
        ok: bool,
        version: &str,
    ) -> (r: bool)
        ensures
            r == piece_faults(session_for(self@, id@, total, code@, ok, version@), index, chunk_total, piece@),
    {
        if index == 0 || index > chunk_total {
            return false;
        }
        match self.find(id) {
            Some(k) => {
                let x = &self.sessions[k];
                assert(self@[k as int] == x.view_session());
                if index > x.parts.len() {
                    return true;
                }
                assert(x.view_session().parts[index - 1] == x.parts@[index - 1]@);
                x.parts[index - 1].unicode_len() == 0 && piece.unicode_len() > 0 && x.received == usize::MAX
            },
            None => index > total,
        }
    }

    /// Stores one piece in session `x`, as `with_piece` says.
    fn store_piece(x: &mut ChunkSession, index: usize, chunk_total: usize, piece: String)
        requires
            !piece_faults(old(x).view_session(), index, chunk_total, piece@),
        ensures
            final(x).view_session() == with_piece(old(x).view_session(), index, chunk_total, piece@),
    {
        if 0 < index && index <= chunk_total {
            let slot = index - 1;
            assert(old(x).view_session().parts[slot as int] == old(x).parts@[slot as int]@);
            if x.parts[slot].unicode_len() == 0 && piece.unicode_len() > 0 {
                x.received = x.received + 1;
            }
            x.parts.set(slot, piece);
            assert(x.view_session().parts =~= old(x).view_session().parts.update(slot as int, piece@));
        }
    }

    /// Puts session `x` back where it was taken from, or adds it.
    fn put_back(&mut self, x: ChunkSession, at: Option<usize>)
        requires
            match at {
                Some(k) => k <= old(self)@.len(),
                None => true,
            },
        ensures
            final(self)@ == match at {
                Some(k) => old(self)@.insert(k as int, x.view_session()),
                None => old(self)@.push(x.view_session()),
            },
    {
        let ghost xv = x.view_session();
        match at {
            Some(k) => {
                self.sessions.insert(k, x);
                assert(self@ =~= old(self)@.insert(k as int, xv));
            },
            None => {
                self.sessions.push(x);
                assert(self@ =~= old(self)@.push(xv));
            },
        }
    }

    /// Takes one response into the assembly, as `chunk_step` says.
    pub fn add_chunk(&mut self, resp: CommandResponse) -> (r: Result<ChunkOutcome, ProtocolError>)
        requires
            !chunk_faults(old(self)@, resp),
        ensures
            (final(self)@, outcome_view(r)) == chunk_step(old(self)@, resp),
    {
        proof {
            reveal_strlit("");
            reveal_strlit("unsupported chunk mode");
            reveal_strlit("chunk metadata needs a numeric index and total");
        }
        let ghost s = self@;
        match read_chunk(&resp.data) {
            ChunkTag::Plain => Ok(ChunkOutcome::Complete(resp)),
            ChunkTag::Unsupported => Err(ProtocolError::BadRequest(text("unsupported chunk mode"))),
            ChunkTag::BadMeta => Err(
                ProtocolError::BadJson(text("chunk metadata needs a numeric index and total")),
            ),
            ChunkTag::Json { index, total, payload } => {
                assert(""@ =~= Seq::<char>::empty());
                let (mut x, at) = self.take_session(resp.id.as_str(), total, "", true, PROTOCOL_VERSION);
                Self::store_piece(&mut x, index, total, payload);
                if x.received == x.total {
                    let joined_text = join_texts(x.parts.as_slice(), "");
                    assert(self@ == chunk_step(s, resp).0);
                    Ok(ChunkOutcome::JsonText(joined_text))
                } else {
                    let ghost xv = x.view_session();
                    self.put_back(x, at);
                    proof {
                        if let Some(k) = at {
                            assert(s.remove(k as int).insert(k as int, xv) =~= s.update(k as int, xv));
                        }
                    }
                    assert(self@ == chunk_step(s, resp).0);
                    Ok(ChunkOutcome::Pending)
                }
            },
            ChunkTag::Legacy { index, total } => {
                assert(""@ =~= Seq::<char>::empty());
                let (mut x, at) = self.take_session(
                    resp.id.as_str(),
                    total,
                    resp.code.as_str(),
                    resp.ok,
                    resp.v.as_str(),
                );
                let CommandResponse { id, text: piece, data, .. } = resp;
                Self::store_piece(&mut x, index, total, piece);
                match rest_of(data) {
                    Some(d) => {
                        x.final_data = Some(d);
                    },
                    None => {},
                }
                if x.received == x.total || (index == total && total == 1) {
                    let body = join_texts(x.parts.as_slice(), "");
                    assert(self@ == chunk_step(s, resp).0);
                    let ChunkSession { code, ok, version, final_data, .. } = x;
                    Ok(
                        ChunkOutcome::Complete(
                            CommandResponse {
                                id,
                                cmd: None,
                                phase: ResponsePhase::Result,
                                seq: 1,
                                final_flag: true,
                                ok,
                                code,
                                text: body,
                                data: final_data,
                                v: version,
                            },
                        ),
                    )
                } else {
                    let ghost xv = x.view_session();
                    self.put_back(x, at);
                    proof {
                        if let Some(k) = at {
                            assert(s.remove(k as int).insert(k as int, xv) =~= s.update(k as int, xv));
                        }
                    }
                    assert(self@ == chunk_step(s, resp).0);
                    Ok(ChunkOutcome::Pending)
                }
            },
        }
    }
}

/// `r` and `after` are what decoding the parsed `response` on the sessions `before` gives:
/// the sessions and outcome of `chunk_step`, the chunk receipt the response asks for, and
/// whether it was a chunk with a receipt.
pub open spec fn legacy_decoded(
    before: Seq<SessionView>,
    response: CommandResponse,
    after: Seq<SessionView>,
    r: Result<LegacyEvent, ProtocolError>,
) -> bool {
    let (next, outcome) = chunk_step(before, response);
    &&& after == next
    &&& match outcome {
        Ok(o) => r matches Ok(ev) && outcome_view(Ok(ev.outcome)) == Ok::<OutcomeView, ProtocolErrorView>(o)
            && ev.assembled_from_chunks == receipt_for(response) is Some && match ev.chunk_receipt {
            Some(c) => receipt_for(response) == Some(c@),
            None => receipt_for(response) is None,
        },
        Err(e) => r matches Err(err) && err@ == e,
    }
}

/// The legacy side of decoding one notification: its chunk receipt, if it asks for one,
/// what it did to the assembly, and whether it was a chunk.
pub struct LegacyEvent {
    pub chunk_receipt: Option<ChunkReceipt>,
    pub outcome: ChunkOutcome,
    pub assembled_from_chunks: bool,
}

/// Decodes responses sent as whole JSON documents, assembling chunked ones.
pub struct ResponseDecoder {
    pub assembler: ChunkAssembler,
}

impl ResponseDecoder {
    pub fn new() -> (r: ResponseDecoder)
        ensures
            r.assembler@ == Seq::<SessionView>::empty(),
    {
        ResponseDecoder { assembler: ChunkAssembler::new() }
    }

    /// One parsed response: its receipt is worked out first, then it goes to the assembly.
    pub fn decode_response(&mut self, response: CommandResponse) -> (r: Result<LegacyEvent, ProtocolError>)
        requires
            !chunk_faults(old(self).assembler@, response),
        ensures
            legacy_decoded(old(self).assembler@, response, final(self).assembler@, r),
    {
        let receipt = chunk_receipt(&response);
        let assembled = receipt.is_some();
        match self.assembler.add_chunk(response) {
            Ok(outcome) => Ok(LegacyEvent { chunk_receipt: receipt, outcome, assembled_from_chunks: assembled }),
            Err(e) => Err(e),
        }
    }
}

/// The chunk of `resp` that carries `payload` as piece `index` of `total` in
/// `response_json` mode: the response's identifier, status, code and version, an empty
/// text, and data holding only the chunk record, which asks for an acknowledgement.
pub fn build_response_json_chunk(resp: &CommandResponse, payload: String, index: usize, total: usize) -> (r: CommandResponse)
    ensures
        receipt_for(r) == if index == 0 || total == 0 {
            None::<ReceiptView>
        } else {
            Some(ReceiptView { response_id: resp.id@, response_seq: 1, chunk_index: index, chunk_total: total })
        },
        r.id@ == resp.id@,
        r.cmd is None,
        r.phase == ResponsePhase::Result,
        r.seq == 1,
        r.final_flag,
        r.ok == resp.ok,
        r.code@ == resp.code@,
        r.text@ == Seq::<char>::empty(),
        r.v@ == resp.v@,
        r.data matches Some(d) && d@.len() == 1 && d@[0].key@ == "chunk"@ && (d@[0].value matches JsonValue::Object(es) && es@.len() == 5
            && es@[0].key@ == "mode"@ && es@[1].key@ == "index"@ && es@[2].key@ == "total"@ && es@[3].key@ == "payload"@
            && es@[4].key@ == "ack_required"@),
        chunk_read(r.data) == ChunkRead::Json(
            JsonChunkView { mode: "response_json"@, index, total, payload: payload@ },
        ),
{
    proof {
        reveal_strlit("");
        reveal_strlit("chunk");
        reveal_strlit("mode");
        reveal_strlit("index");
        reveal_strlit("total");
        reveal_strlit("payload");
        reveal_strlit("response_json");
    }
    let ghost p = payload@;
    let mut members: Vec<JsonEntry> = Vec::new();
    members.push(JsonEntry { key: text("mode"), value: JsonValue::String(text("response_json")) });
    members.push(JsonEntry { key: text("index"), value: JsonValue::Number(JsonNumber::Unsigned(index as u64)) });
    members.push(JsonEntry { key: text("total"), value: JsonValue::Number(JsonNumber::Unsigned(total as u64)) });
    members.push(JsonEntry { key: text("payload"), value: JsonValue::String(payload) });
    members.push(JsonEntry { key: text("ack_required"), value: JsonValue::Bool(true) });
    let ghost ms = members@;
    assert(entry_value(ms, "mode"@) == Some(ms[0].value));
    let ghost m1 = ms.drop_first();
    let ghost m2 = m1.drop_first();
    let ghost m3 = m2.drop_first();
    assert(m1[0] == ms[1] && m2[0] == ms[2] && m3[0] == ms[3]);
    proof {
        reveal_strlit("mode");
        reveal_strlit("index");
        reveal_strlit("total");
        reveal_strlit("payload");
        assert("mode"@.len() == 4 && "index"@.len() == 5 && "total"@.len() == 5 && "payload"@.len() == 7);
        assert("index"@[0] == 'i' && "total"@[0] == 't');
    }
    assert(entry_value(m1, "index"@) == Some(ms[1].value));
    assert(entry_value(ms, "index"@) == Some(ms[1].value));
    assert(entry_value(m2, "total"@) == Some(ms[2].value));
    assert(entry_value(m1, "total"@) == Some(ms[2].value));
    assert(entry_value(ms, "total"@) == Some(ms[2].value));
    assert(entry_value(m3, "payload"@) == Some(ms[3].value));
    assert(entry_value(m2, "payload"@) == Some(ms[3].value));
    assert(entry_value(m1, "payload"@) == Some(ms[3].value));
    assert(entry_value(ms, "payload"@) == Some(ms[3].value));
    let ghost m4 = m3.drop_first();
    proof {
        reveal_strlit("ack_required");
        assert("ack_required"@[0] == 'a' && "mode"@[0] == 'm' && "payload"@[0] == 'p');
    }
    assert(m4[0] == ms[4]);
    assert(entry_value(m4, "ack_required"@) == Some(ms[4].value));
    assert(entry_value(m3, "ack_required"@) == Some(ms[4].value));
    assert(entry_value(m2, "ack_required"@) == Some(ms[4].value));
    assert(entry_value(m1, "ack_required"@) == Some(ms[4].value));
    assert(entry_value(ms, "ack_required"@) == Some(ms[4].value));
    let mut data: Vec<JsonEntry> = Vec::new();
    data.push(JsonEntry { key: text("chunk"), value: JsonValue::Object(members) });
    let e = text("");
    assert(e@ =~= Seq::<char>::empty());
    CommandResponse {
        id: text(resp.id.as_str()),
        cmd: None,
        phase: ResponsePhase::Result,
        seq: 1,
        final_flag: true,
        ok: resp.ok,
        code: text(resp.code.as_str()),
        text: e,
        data: Some(data),
        v: text(resp.v.as_str()),
    }
}

} // verus!
