use vstd::prelude::*;
use vstd::string::StrSliceExecFns;
use vstd::utf8::encode_utf8;

use crate::cli_text::ascii_lower;
use crate::debug_text::{chunk_members, chunk_object, number_member, or_else, or_zero, text_member, text_value};
use crate::json::entry_value;
use crate::protocol::{protocol_error_text, CommandResponse, ProtocolError, ResponsePhase};
use crate::receipt::unsigned_value;
use crate::text::{append_decimal, decimal, join_texts, joined, string_views, text};
use crate::trace_box::{
    box_bottom, box_line, box_separator, box_top, trace_box_bottom, trace_box_line,
    trace_box_separator, trace_box_top, wrap_chars, wrapped, ANSI_BLUE, ANSI_GREEN, ANSI_PURPLE,
    ANSI_RESET, TRACE_BOX_TEXT_WIDTH, TRACE_BOX_WIDTH,
};

verus! {

#[derive(Debug, Clone, Copy, PartialEq, Eq, Structural)]
pub enum TraceWriteKind {
    Request,
    ChunkAck,
    EventAck,
}

impl TraceWriteKind {
    pub open spec fn label_text(self) -> Seq<char> {
        match self {
            TraceWriteKind::Request => "request"@,
            TraceWriteKind::ChunkAck => "chunk-ack"@,
            TraceWriteKind::EventAck => "event-ack"@,
        }
    }

    pub fn label(self) -> (r: &'static str)
        ensures
            r@ == self.label_text(),
    {
        match self {
            TraceWriteKind::Request => "request",
            TraceWriteKind::ChunkAck => "chunk-ack",
            TraceWriteKind::EventAck => "event-ack",
        }
    }
}

/// One step of a Bluetooth exchange, as the trace shows it.
#[derive(Debug, Clone, PartialEq, Eq)]
pub enum TraceEvent {
    TxRaw { kind: TraceWriteKind, bytes: Vec<u8>, redacted: bool },
    QosTx { kind: TraceWriteKind, bytes: usize, write: &'static str },
    QosFallback { kind: TraceWriteKind, reason: String },
    RxRaw { bytes: Vec<u8> },
    RxChunk { response_id: String, mode: String, index: u64, total: u64, payload: String },
    RxFrame {
        response_id: String,
        cmd: Option<String>,
        code: String,
        phase: ResponsePhase,
        final_flag: bool,
        text: String,
    },
    RxAssembled { bytes: Vec<u8> },
    QosChunkAck { response_id: String, response_seq: u64, chunk_index: usize, chunk_total: usize },
    QosEventAck { response_id: String, response_seq: u64 },
    RequestRetry { request_id: String, attempt: usize, error: String },
}

#[derive(Debug, Clone, Copy, PartialEq, Eq, Structural)]
pub struct TraceOptions {
    pub redact_secrets: bool,
}

impl TraceOptions {
    /// Traces that hide secrets.
    pub fn safe() -> (r: TraceOptions)
        ensures
            r.redact_secrets,
    {
        TraceOptions { redact_secrets: true }
    }

    /// Traces that show payloads as they are.
    pub fn unsafe_raw() -> (r: TraceOptions)
        ensures
            !r.redact_secrets,
    {
        TraceOptions { redact_secrets: false }
    }
}

/// The pretty-printed form of the JSON document in `bytes`, when they hold one.
pub uninterp spec fn pretty_json_of(bytes: Seq<u8>) -> Option<Seq<char>>;

/// `bytes` decoded as UTF-8, with invalid sequences replaced.
pub uninterp spec fn lossy_utf8(bytes: Seq<u8>) -> Seq<char>;

/// Parses `bytes` with `serde_json::from_slice` into a `serde_json::Value` and prints that
/// value again with `serde_json::to_string_pretty`. The outcome depends on the bytes alone,
/// and is `None` when either step fails.
#[verifier::external_body]
fn pretty_json(bytes: &[u8]) -> (r: Option<String>)
    ensures
        match r {
            Some(t) => pretty_json_of(bytes@) == Some(t@),
            None => pretty_json_of(bytes@) is None,
        },
{
    match serde_json::from_slice::<serde_json::Value>(bytes) {
        Ok(value) => serde_json::to_string_pretty(&value).ok(),
        Err(_) => None,
    }
}

/// Calls `String::from_utf8_lossy`: the bytes as UTF-8 text, invalid sequences replaced,
/// which depends on the bytes alone.
#[verifier::external_body]
pub(crate) fn utf8_lossy(bytes: &[u8]) -> (r: String)
    ensures
        r@ == lossy_utf8(bytes@),
{
    String::from_utf8_lossy(bytes).into_owned()
}

/// How a packet is shown: pretty JSON when asked for and possible, else its text.
pub open spec fn packet_view(bytes: Seq<u8>, pretty: bool) -> Seq<char> {
    if pretty && pretty_json_of(bytes) is Some {
        pretty_json_of(bytes)->0
    } else {
        lossy_utf8(bytes)
    }
}

pub fn packet_text(bytes: &[u8], pretty_json_requested: bool) -> (r: String)
    ensures
        r@ == packet_view(bytes@, pretty_json_requested),
{
    if pretty_json_requested {
        match pretty_json(bytes) {
            Some(t) => {
                return t;
            },
            None => {},
        }
    }
    utf8_lossy(bytes)
}

/// A one-line trace: the title, then the fields separated by spaces.
pub open spec fn trace_line(title: Seq<char>, fields: Seq<Seq<char>>) -> Seq<char> {
    if fields.len() == 0 {
        title
    } else {
        title + " "@ + joined(fields, " "@)
    }
}

pub fn format_trace_line(title: &str, lines: &[String]) -> (r: String)
    ensures
        r@ == trace_line(title@, string_views(lines@)),
{
    if lines.len() == 0 {
        return text(title);
    }
    let mut out = text(title);
    out.append(" ");
    let rest = join_texts(lines, " ");
    out.append(rest.as_str());
    out
}

/// The framed lines of the metadata, each cut to the frame's text width.
pub open spec fn metadata_lines(color: Seq<char>, metadata: Seq<Seq<char>>) -> Seq<Seq<char>>
    decreases metadata.len(),
{
    if metadata.len() == 0 {
        Seq::empty()
    } else {
        metadata_lines(color, metadata.drop_last()) + wrapped(
            metadata.last(),
            TRACE_BOX_TEXT_WIDTH as nat,
        ).map_values(|l: Seq<char>| box_line(color, l))
    }
}

/// A frame whose packet text is wrapped inside the side bars.
pub open spec fn bordered_frame(
    color: Seq<char>,
    title: Seq<char>,
    metadata: Seq<Seq<char>>,
    packet: Seq<char>,
) -> Seq<char> {
    joined(
        seq![box_top(color, title)] + metadata_lines(color, metadata) + wrapped(
            "packet "@ + packet,
            TRACE_BOX_TEXT_WIDTH as nat,
        ).map_values(|l: Seq<char>| box_line(color, l)) + seq![box_bottom(color)],
        "\n"@,
    )
}

/// `s` cut at each newline; the last piece follows the last newline.
pub open spec fn newline_pieces(s: Seq<char>) -> Seq<Seq<char>>
    decreases s.len(),
{
    if s.len() == 0 {
        seq![Seq::empty()]
    } else {
        let rest = newline_pieces(s.drop_last());
        if s.last() == '\n' {
            rest.push(Seq::empty())
        } else {
            rest.update(rest.len() - 1, rest.last().push(s.last()))
        }
    }
}

/// `s` without one trailing carriage return.
pub open spec fn without_cr(s: Seq<char>) -> Seq<char> {
    if s.len() > 0 && s.last() == '\r' {
        s.drop_last()
    } else {
        s
    }
}

/// The lines of a packet shown unframed: none for an empty packet; else the pieces
/// between newlines, those ended by a newline without a trailing carriage return, and an
/// empty last line when the packet ends with a newline.
pub open spec fn packet_lines(p: Seq<char>) -> Seq<Seq<char>> {
    if p.len() == 0 {
        Seq::empty()
    } else {
        let pieces = newline_pieces(p);
        pieces.drop_last().map_values(|s: Seq<char>| without_cr(s)) + seq![pieces.last()]
    }
}

/// A frame whose packet lines stand outside the side bars, so that they can be copied.
pub open spec fn copyable_frame(
    color: Seq<char>,
    title: Seq<char>,
    metadata: Seq<Seq<char>>,
    packet: Seq<char>,
) -> Seq<char> {
    joined(
        seq![box_top(color, title)] + metadata_lines(color, metadata) + seq![
            box_separator(color, " packet "@),
        ] + packet_lines(packet) + seq![box_bottom(color)],
        "\n"@,
    )
}

proof fn lemma_newline_pieces_nonempty(s: Seq<char>)
    ensures
        newline_pieces(s).len() >= 1,
    decreases s.len(),
{
    if s.len() > 0 {
        lemma_newline_pieces_nonempty(s.drop_last());
    }
}

/// Appends the framed, wrapped lines of `line`.
fn push_framed_wrapped(rendered: &mut Vec<String>, color: &str, line: &str)
    ensures
        string_views(final(rendered)@) == string_views(old(rendered)@) + wrapped(
            line@,
            TRACE_BOX_TEXT_WIDTH as nat,
        ).map_values(|l: Seq<char>| box_line(color@, l)),
{
    let pieces = wrap_chars(line, TRACE_BOX_TEXT_WIDTH);
    let ghost start = string_views(rendered@);
    let ghost target = string_views(pieces@).map_values(|l: Seq<char>| box_line(color@, l));
    let mut i: usize = 0;
    while i < pieces.len()
        invariant
            i <= pieces@.len(),
            target == string_views(pieces@).map_values(|l: Seq<char>| box_line(color@, l)),
            string_views(rendered@) == start + target.take(i as int),
        decreases pieces@.len() - i,
    {
        let framed = trace_box_line(color, pieces[i].as_str());
        let ghost before = string_views(rendered@);
        rendered.push(framed);
        i = i + 1;
        proof {
            assert(string_views(rendered@) =~= before.push(framed@));
            assert(target.take(i as int) =~= target.take(i - 1).push(target[i - 1]));
        }
    }
    assert(target.take(pieces@.len() as int) =~= target);
}

/// Appends the framed lines of each metadata line.
fn push_metadata(rendered: &mut Vec<String>, color: &str, metadata: &Vec<String>)
    ensures
        string_views(final(rendered)@) == string_views(old(rendered)@) + metadata_lines(
            color@,
            string_views(metadata@),
        ),
{
    let ghost start = string_views(rendered@);
    let mut i: usize = 0;
    while i < metadata.len()
        invariant
            i <= metadata@.len(),
            string_views(rendered@) == start + metadata_lines(
                color@,
                string_views(metadata@.take(i as int)),
            ),
        decreases metadata@.len() - i,
    {
        let ghost before = string_views(rendered@);
        push_framed_wrapped(rendered, color, metadata[i].as_str());
        i = i + 1;
        proof {
            let m = string_views(metadata@.take(i as int));
            assert(m.drop_last() =~= string_views(metadata@.take(i - 1)));
            assert(m.last() == metadata@[i - 1]@);
            assert(string_views(rendered@) =~= start + metadata_lines(color@, m));
        }
    }
    assert(metadata@.take(metadata@.len() as int) =~= metadata@);
}

/// A trace frame with the packet wrapped between the side bars.
pub fn format_bordered_packet_frame(
    color: &str,
    title: &str,
    metadata: Vec<String>,
    packet: String,
) -> (r: String)
    ensures
        r@ == bordered_frame(color@, title@, string_views(metadata@), packet@),
{
    let mut rendered: Vec<String> = Vec::new();
    rendered.push(trace_box_top(color, title));
    push_metadata(&mut rendered, color, &metadata);
    let mut line = text("packet ");
    line.append(packet.as_str());
    push_framed_wrapped(&mut rendered, color, line.as_str());
    let ghost before = string_views(rendered@);
    rendered.push(trace_box_bottom(color));
    proof {
        assert(string_views(rendered@) =~= before.push(box_bottom(color@)));
        assert(string_views(rendered@) =~= seq![box_top(color@, title@)] + metadata_lines(
            color@,
            string_views(metadata@),
        ) + wrapped("packet "@ + packet@, TRACE_BOX_TEXT_WIDTH as nat).map_values(
            |l: Seq<char>| box_line(color@, l),
        ) + seq![box_bottom(color@)]);
    }
    join_texts(rendered.as_slice(), "\n")
}

/// `s` without one trailing carriage return.
fn strip_cr(s: &str) -> (r: String)
    ensures
        r@ == without_cr(s@),
{
    let n = s.unicode_len();
    if n > 0 && s.get_char(n - 1) == '\r' {
        text(s.substring_char(0, n - 1))
    } else {
        text(s)
    }
}

/// Appends the unframed lines of a packet.
fn push_packet_lines(rendered: &mut Vec<String>, packet: &str)
    ensures
        string_views(final(rendered)@) == string_views(old(rendered)@) + packet_lines(packet@),
{
    let n = packet.unicode_len();
    if n == 0 {
        assert(string_views(rendered@) =~= string_views(rendered@) + packet_lines(packet@));
        return;
    }
    let ghost p = packet@;
    let ghost base = string_views(rendered@);
    let ghost mut done: Seq<Seq<char>> = Seq::empty();
    let mut start: usize = 0;
    let mut i: usize = 0;
    assert(p.take(0) =~= Seq::<char>::empty());
    while i < n
        invariant
            p == packet@,
            n == p.len(),
            start <= i <= n,
            newline_pieces(p.take(i as int)) == done + seq![p.subrange(start as int, i as int)],
            string_views(rendered@) == base + done.map_values(|s: Seq<char>| without_cr(s)),
        decreases n - i,
    {
        let c = packet.get_char(i);
        proof {
            assert(p.take(i + 1).drop_last() =~= p.take(i as int));
            assert(p.take(i + 1).last() == c);
        }
        if c == '\n' {
            let piece = strip_cr(packet.substring_char(start, i));
            let ghost before = string_views(rendered@);
            rendered.push(piece);
            proof {
                let old_done = done;
                done = done.push(p.subrange(start as int, i as int));
                assert(string_views(rendered@) =~= before.push(piece@));
                assert(done.map_values(|s: Seq<char>| without_cr(s)) =~= old_done.map_values(
                    |s: Seq<char>| without_cr(s),
                ).push(without_cr(p.subrange(start as int, i as int))));
                assert(p.subrange(i + 1, i + 1) =~= Seq::<char>::empty());
                assert(newline_pieces(p.take(i + 1)) =~= done + seq![p.subrange(i + 1, i + 1)]);
            }
            start = i + 1;
        } else {
            proof {
                assert(p.subrange(start as int, i + 1) =~= p.subrange(start as int, i as int).push(
                    c,
                ));
                assert(newline_pieces(p.take(i + 1)) =~= done + seq![
                    p.subrange(start as int, i + 1),
                ]);
            }
        }
        i = i + 1;
    }
    let last = text(packet.substring_char(start, n));
    let ghost before = string_views(rendered@);
    rendered.push(last);
    proof {
        assert(p.take(n as int) =~= p);
        let pieces = newline_pieces(p);
        assert(pieces.drop_last() =~= done);
        assert(pieces.last() == p.subrange(start as int, n as int));
        assert(string_views(rendered@) =~= before.push(last@));
        assert(string_views(rendered@) =~= base + packet_lines(p));
    }
}

/// A trace frame with the packet lines left unframed, so that they can be copied.
pub fn format_copyable_packet_frame(
    color: &str,
    title: &str,
    metadata: Vec<String>,
    packet: String,
) -> (r: String)
    ensures
        r@ == copyable_frame(color@, title@, string_views(metadata@), packet@),
{
    let mut rendered: Vec<String> = Vec::new();
    rendered.push(trace_box_top(color, title));
    assert(string_views(rendered@) =~= seq![box_top(color@, title@)]);
    push_metadata(&mut rendered, color, &metadata);
    let ghost mid = string_views(rendered@);
    let sep = trace_box_separator(color, " packet ");
    rendered.push(sep);
    assert(string_views(rendered@) =~= mid.push(sep@));
    let ghost after_sep = string_views(rendered@);
    push_packet_lines(&mut rendered, packet.as_str());
    let ghost before = string_views(rendered@);
    let bottom = trace_box_bottom(color);
    rendered.push(bottom);
    proof {
        assert(string_views(rendered@) =~= before.push(bottom@));
        assert(string_views(rendered@) =~= seq![box_top(color@, title@)] + metadata_lines(
            color@,
            string_views(metadata@),
        ) + seq![box_separator(color@, " packet "@)] + packet_lines(packet@) + seq![
            box_bottom(color@),
        ]);
    }
    join_texts(rendered.as_slice(), "\n")
}


pub open spec fn bool_text(b: bool) -> Seq<char> {
    if b {
        "true"@
    } else {
        "false"@
    }
}

/// How `{:?}` writes a response phase.
pub open spec fn phase_debug(p: ResponsePhase) -> Seq<char> {
    match p {
        ResponsePhase::Accepted => "Accepted"@,
        ResponsePhase::Progress => "Progress"@,
        ResponsePhase::Result => "Result"@,
    }
}

/// The trace text of one event: packets in colored frames, everything else on one line.
pub open spec fn event_text(e: TraceEvent) -> Seq<char> {
    match e {
        TraceEvent::TxRaw { kind, bytes, redacted } => bordered_frame(
            ANSI_GREEN@,
            "[TX:raw]"@,
            seq![
                "kind     "@ + kind.label_text(),
                "bytes    "@ + decimal(bytes@.len()),
                "redacted "@ + bool_text(redacted),
            ],
            packet_view(bytes@, false),
        ),
        TraceEvent::QosTx { kind, bytes, write } => trace_line(
            "[QOS:tx]"@,
            seq!["kind="@ + kind.label_text(), "bytes="@ + decimal(bytes as nat), "write="@ + write@],
        ),
        TraceEvent::QosFallback { kind, reason } => trace_line(
            "[QOS:tx]"@,
            seq!["kind="@ + kind.label_text(), "fallback=without-response"@, "reason="@ + reason@],
        ),
        TraceEvent::RxRaw { bytes } => bordered_frame(
            ANSI_BLUE@,
            "[RX:raw]"@,
            seq!["bytes  "@ + decimal(bytes@.len())],
            packet_view(bytes@, false),
        ),
        TraceEvent::RxChunk { response_id, mode, index, total, payload } => trace_line(
            "[RX:chunk]"@,
            seq![
                "id="@ + response_id@,
                "mode="@ + mode@,
                "index="@ + decimal(index as nat) + "/"@ + decimal(total as nat),
                "payload_bytes="@ + decimal(encode_utf8(payload@).len()),
            ],
        ),
        TraceEvent::RxFrame { response_id, cmd, code, phase, final_flag, text } => trace_line(
            "[RX:frame]"@,
            seq![
                "id="@ + response_id@,
                "cmd="@ + match cmd {
                    Some(c) => c@,
                    None => "<missing>"@,
                },
                "code="@ + code@,
                "phase="@ + phase_debug(phase),
                "final="@ + bool_text(final_flag),
                "text="@ + text@,
            ],
        ),
        TraceEvent::RxAssembled { bytes } => copyable_frame(
            ANSI_PURPLE@,
            "[RX:assembled]"@,
            seq!["bytes  "@ + decimal(bytes@.len())],
            packet_view(bytes@, true),
        ),
        TraceEvent::QosChunkAck { response_id, response_seq, chunk_index, chunk_total } => trace_line(
            "[QOS:ack]"@,
            seq![
                "id="@ + response_id@,
                "seq="@ + decimal(response_seq as nat),
                "chunk="@ + decimal(chunk_index as nat) + "/"@ + decimal(chunk_total as nat),
            ],
        ),
        TraceEvent::QosEventAck { response_id, response_seq } => trace_line(
            "[QOS:event-ack]"@,
            seq!["id="@ + response_id@, "seq="@ + decimal(response_seq as nat)],
        ),
        TraceEvent::RequestRetry { request_id, attempt, error } => trace_line(
            "[QOS:retry]"@,
            seq!["id="@ + request_id@, "attempt="@ + decimal(attempt as nat), "error="@ + error@],
        ),
    }
}

fn field(prefix: &str, value: &str) -> (r: String)
    ensures
        r@ == prefix@ + value@,
{
    let mut out = text(prefix);
    out.append(value);
    out
}

fn number_field(prefix: &str, n: u64) -> (r: String)
    ensures
        r@ == prefix@ + decimal(n as nat),
{
    let mut out = text(prefix);
    append_decimal(&mut out, n);
    out
}

fn ratio_field(prefix: &str, a: u64, b: u64) -> (r: String)
    ensures
        r@ == prefix@ + decimal(a as nat) + "/"@ + decimal(b as nat),
{
    let mut out = text(prefix);
    append_decimal(&mut out, a);
    out.append("/");
    append_decimal(&mut out, b);
    out
}

fn bool_str(b: bool) -> (r: &'static str)
    ensures
        r@ == bool_text(b),
{
    if b {
        "true"
    } else {
        "false"
    }
}

fn phase_str(p: ResponsePhase) -> (r: &'static str)
    ensures
        r@ == phase_debug(p),
{
    match p {
        ResponsePhase::Accepted => "Accepted",
        ResponsePhase::Progress => "Progress",
        ResponsePhase::Result => "Result",
    }
}

fn three(a: String, b: String, c: String) -> (r: Vec<String>)
    ensures
        string_views(r@) == seq![a@, b@, c@],
{
    let mut v: Vec<String> = Vec::new();
    v.push(a);
    v.push(b);
    v.push(c);
    assert(string_views(v@) =~= seq![a@, b@, c@]);
    v
}

fn one(a: String) -> (r: Vec<String>)
    ensures
        string_views(r@) == seq![a@],
{
    let mut v: Vec<String> = Vec::new();
    v.push(a);
    assert(string_views(v@) =~= seq![a@]);
    v
}

/// The trace text of one event.
pub fn format_trace_event(event: &TraceEvent) -> (r: String)
    ensures
        r@ == event_text(*event),
{
    match event {
        TraceEvent::TxRaw { kind, bytes, redacted } => {
            let meta = three(
                field("kind     ", kind.label()),
                number_field("bytes    ", bytes.len() as u64),
                field("redacted ", bool_str(*redacted)),
            );
            let packet = packet_text(bytes.as_slice(), false);
            format_bordered_packet_frame(ANSI_GREEN, "[TX:raw]", meta, packet)
        },
        TraceEvent::QosTx { kind, bytes, write } => {
            let lines = three(
                field("kind=", kind.label()),
                number_field("bytes=", *bytes as u64),
                field("write=", write),
            );
            format_trace_line("[QOS:tx]", lines.as_slice())
        },
        TraceEvent::QosFallback { kind, reason } => {
            let lines = three(
                field("kind=", kind.label()),
                text("fallback=without-response"),
                field("reason=", reason.as_str()),
            );
            format_trace_line("[QOS:tx]", lines.as_slice())
        },
        TraceEvent::RxRaw { bytes } => {
            let meta = one(number_field("bytes  ", bytes.len() as u64));
            format_bordered_packet_frame(ANSI_BLUE, "[RX:raw]", meta, packet_text(bytes.as_slice(), false))
        },
        TraceEvent::RxChunk { response_id, mode, index, total, payload } => {
            let mut lines = three(
                field("id=", response_id.as_str()),
                field("mode=", mode.as_str()),
                ratio_field("index=", *index, *total),
            );
            let size = number_field("payload_bytes=", payload.as_str().as_bytes().len() as u64);
            let ghost before = string_views(lines@);
            lines.push(size);
            let ghost lit = seq![
                "id="@ + response_id@,
                "mode="@ + mode@,
                "index="@ + decimal(*index as nat) + "/"@ + decimal(*total as nat),
                "payload_bytes="@ + decimal(encode_utf8(payload@).len()),
            ];
            assert(string_views(lines@) =~= before.push(size@));
            assert(string_views(lines@) =~~= lit);
            let out = format_trace_line("[RX:chunk]", lines.as_slice());
            assert(out@ == trace_line("[RX:chunk]"@, lit));
            out
        },
        TraceEvent::RxFrame { response_id, cmd, code, phase, final_flag, text: body } => {
            let cmd_text = match cmd {
                Some(c) => field("cmd=", c.as_str()),
                None => field("cmd=", "<missing>"),
            };
            let mut lines = three(field("id=", response_id.as_str()), cmd_text, field("code=", code.as_str()));
            let a = field("phase=", phase_str(*phase));
            let b = field("final=", bool_str(*final_flag));
            let c = field("text=", body.as_str());
            let ghost before = string_views(lines@);
            lines.push(a);
            lines.push(b);
            lines.push(c);
            assert(string_views(lines@) =~= before.push(a@).push(b@).push(c@));
            assert(string_views(lines@) =~~= seq![
                "id="@ + response_id@,
                "cmd="@ + match cmd {
                    Some(c) => c@,
                    None => "<missing>"@,
                },
                "code="@ + code@,
                "phase="@ + phase_debug(*phase),
                "final="@ + bool_text(*final_flag),
                "text="@ + body@,
            ]);
            format_trace_line("[RX:frame]", lines.as_slice())
        },
        TraceEvent::RxAssembled { bytes } => {
            let meta = one(number_field("bytes  ", bytes.len() as u64));
            format_copyable_packet_frame(
                ANSI_PURPLE,
                "[RX:assembled]",
                meta,
                packet_text(bytes.as_slice(), true),
            )
        },
        TraceEvent::QosChunkAck { response_id, response_seq, chunk_index, chunk_total } => {
            let lines = three(
                field("id=", response_id.as_str()),
                number_field("seq=", *response_seq),
                ratio_field("chunk=", *chunk_index as u64, *chunk_total as u64),
            );
            format_trace_line("[QOS:ack]", lines.as_slice())
        },
        TraceEvent::QosEventAck { response_id, response_seq } => {
            let mut lines = one(field("id=", response_id.as_str()));
            let s = number_field("seq=", *response_seq);
            let ghost before = string_views(lines@);
            lines.push(s);
            assert(string_views(lines@) =~= before.push(s@));
            assert(string_views(lines@) =~~= seq!["id="@ + response_id@, "seq="@ + decimal(*response_seq as nat)]);
            format_trace_line("[QOS:event-ack]", lines.as_slice())
        },
        TraceEvent::RequestRetry { request_id, attempt, error } => {
            let lines = three(
                field("id=", request_id.as_str()),
                number_field("attempt=", *attempt as u64),
                field("error=", error.as_str()),
            );
            format_trace_line("[QOS:retry]", lines.as_slice())
        },
    }
}


/// `s` with ASCII upper-case letters made lower-case.
pub open spec fn ascii_lowered(s: Seq<char>) -> Seq<char> {
    s.map_values(|c: char| ascii_lower(c))
}

/// Keys whose values a safe trace hides, in any ASCII letter case.
pub open spec fn secret_key(key: Seq<char>) -> bool {
    let k = ascii_lowered(key);
    k == "pwd"@ || k == "password"@ || k == "passphrase"@ || k == "psk"@
}

fn lowered_matches(c: char, t: char) -> (r: bool)
    ensures
        r == (ascii_lower(c) == t),
{
    if 'A' <= c && c <= 'Z' {
        let code: u32 = c as u32 + 32;
        let r = code == t as u32;
        proof {
            let l = ascii_lower(c);
            assert(l as u32 == code);
        }
        r
    } else {
        c == t
    }
}

/// Whether `key` equals `target` once ASCII letters are made lower-case.
fn lowered_equals(key: &str, target: &str) -> (r: bool)
    ensures
        r == (ascii_lowered(key@) == target@),
{
    let n = key.unicode_len();
    let m = target.unicode_len();
    if n != m {
        assert(ascii_lowered(key@).len() != target@.len());
        return false;
    }
    let mut i: usize = 0;
    while i < n
        invariant
            n == key@.len(),
            m == target@.len(),
            n == m,
            i <= n,
            forall|j: int| 0 <= j < i ==> ascii_lower(#[trigger] key@[j]) == target@[j],
        decreases n - i,
    {
        if !lowered_matches(key.get_char(i), target.get_char(i)) {
            assert(ascii_lowered(key@)[i as int] != target@[i as int]);
            return false;
        }
        i = i + 1;
    }
    assert(ascii_lowered(key@) =~= target@);
    true
}

pub fn is_secret_key(key: &str) -> (r: bool)
    ensures
        r == secret_key(key@),
{
    lowered_equals(key, "pwd") || lowered_equals(key, "password") || lowered_equals(key, "passphrase")
        || lowered_equals(key, "psk")
}


/// The trace events of one received notification: the raw bytes, then the chunk or the
/// response frame it parsed to, or a `BAD_JSON` frame when it did not parse.
pub fn response_trace_events(raw: &[u8], parsed: Result<CommandResponse, ProtocolError>) -> (r: Vec<TraceEvent>)
    ensures
        r@.len() == 2,
        r@[0] matches TraceEvent::RxRaw { bytes } && bytes@ == raw@,
        match parsed {
            Ok(resp) => match chunk_object(resp) {
                Some(chunk) => r@[1] matches TraceEvent::RxChunk { response_id, mode, index, total, payload }
                    && response_id@ == resp.id@
                    && mode@ == or_else(text_value(entry_value(chunk, "mode"@)), "<missing>"@)
                    && index == or_zero(unsigned_value(entry_value(chunk, "index"@)))
                    && total == or_zero(unsigned_value(entry_value(chunk, "total"@)))
                    && payload@ == or_else(text_value(entry_value(chunk, "payload"@)), Seq::empty()),
                None => r@[1] matches TraceEvent::RxFrame { response_id, cmd, code, phase, final_flag, text }
                    && response_id == resp.id && cmd == resp.cmd && code == resp.code && phase == resp.phase
                    && final_flag == resp.final_flag && text == resp.text,
            },
            Err(e) => r@[1] matches TraceEvent::RxFrame { response_id, cmd, code, phase, final_flag, text }
                && response_id@ == "<parse-error>"@ && cmd is None && code@ == "BAD_JSON"@
                && phase == ResponsePhase::Result && final_flag && text@ == protocol_error_text(e@),
        },
{
    let mut events: Vec<TraceEvent> = Vec::new();
    events.push(TraceEvent::RxRaw { bytes: crate::bytes::copy_range(raw, 0, raw.len()) });
    match parsed {
        Ok(response) => {
            match chunk_members(&response) {
                Some(chunk) => {
                    let mode = match text_member(chunk, "mode") {
                        Some(m) => text(m),
                        None => text("<missing>"),
                    };
                    let payload = match text_member(chunk, "payload") {
                        Some(p) => text(p),
                        None => String::new(),
                    };
                    let index = number_member(chunk, "index");
                    let total = number_member(chunk, "total");
                    let response_id = text(response.id.as_str());
                    events.push(TraceEvent::RxChunk { response_id, mode, index, total, payload });
                },
                None => {
                    events.push(
                        TraceEvent::RxFrame {
                            response_id: response.id,
                            cmd: response.cmd,
                            code: response.code,
                            phase: response.phase,
                            final_flag: response.final_flag,
                            text: response.text,
                        },
                    );
                },
            }
        },
        Err(e) => {
            events.push(
                TraceEvent::RxFrame {
                    response_id: text("<parse-error>"),
                    cmd: None,
                    code: text("BAD_JSON"),
                    phase: ResponsePhase::Result,
                    final_flag: true,
                    text: e.to_text(),
                },
            );
        },
    }
    events
}


/// `s` starts with `head` and ends with `tail`.
pub open spec fn starts_and_ends(s: Seq<char>, head: Seq<char>, tail: Seq<char>) -> bool {
    &&& s.len() >= head.len()
    &&& s.subrange(0, head.len() as int) == head
    &&& s.len() >= tail.len()
    &&& s.subrange(s.len() - tail.len(), s.len() as int) == tail
}

/// The color and title of the frame an event is drawn in, for raw packet events.
pub open spec fn packet_frame_of(e: TraceEvent) -> Option<(Seq<char>, Seq<char>)> {
    match e {
        TraceEvent::TxRaw { .. } => Some((ANSI_GREEN@, "[TX:raw]"@)),
        TraceEvent::RxRaw { .. } => Some((ANSI_BLUE@, "[RX:raw]"@)),
        TraceEvent::RxAssembled { .. } => Some((ANSI_PURPLE@, "[RX:assembled]"@)),
        _ => None,
    }
}

/// The title that starts the one-line trace of every other event.
pub open spec fn line_title_of(e: TraceEvent) -> Seq<char> {
    match e {
        TraceEvent::QosTx { .. } => "[QOS:tx]"@,
        TraceEvent::QosFallback { .. } => "[QOS:tx]"@,
        TraceEvent::RxChunk { .. } => "[RX:chunk]"@,
        TraceEvent::RxFrame { .. } => "[RX:frame]"@,
        TraceEvent::QosChunkAck { .. } => "[QOS:ack]"@,
        TraceEvent::QosEventAck { .. } => "[QOS:event-ack]"@,
        TraceEvent::RequestRetry { .. } => "[QOS:retry]"@,
        _ => Seq::empty(),
    }
}

proof fn lemma_joined_ends(parts: Seq<Seq<char>>, sep: Seq<char>)
    requires
        parts.len() >= 1,
    ensures
        starts_and_ends(joined(parts, sep), parts[0], parts.last()),
    decreases parts.len(),
{
    let j = joined(parts, sep);
    if parts.len() == 1 {
        assert(j.subrange(0, j.len() as int) =~= j);
    } else {
        let d = parts.drop_last();
        lemma_joined_ends(d, sep);
        let jd = joined(d, sep);
        assert(d[0] == parts[0]);
        assert(j == jd + sep + parts.last());
        assert(j.subrange(0, parts[0].len() as int) =~= jd.subrange(0, parts[0].len() as int));
        assert(j.subrange(j.len() - parts.last().len(), j.len() as int) =~= parts.last());
    }
}

proof fn lemma_frame_ends(color: Seq<char>, title: Seq<char>, middle: Seq<Seq<char>>)
    requires
        title.len() + 2 < TRACE_BOX_WIDTH,
    ensures
        starts_and_ends(
            joined(seq![box_top(color, title)] + middle + seq![box_bottom(color)], "\n"@),
            color + "╭"@ + " "@ + title + " "@,
            "╯"@ + ANSI_RESET@,
        ),
{
    let parts = seq![box_top(color, title)] + middle + seq![box_bottom(color)];
    assert(parts[0] == box_top(color, title));
    assert(parts.last() == box_bottom(color));
    lemma_joined_ends(parts, "\n"@);
    let head = color + "╭"@ + " "@ + title + " "@;
    let t = " "@ + title + " "@;
    reveal_strlit(" ");
    assert(t.len() < TRACE_BOX_WIDTH);
    let top = box_top(color, title);
    assert(top.subrange(0, head.len() as int) =~= head);
    let tail = "╯"@ + ANSI_RESET@;
    let bottom = box_bottom(color);
    assert(bottom.subrange(bottom.len() - tail.len(), bottom.len() as int) =~= tail);
    let j = joined(parts, "\n"@);
    assert(j.subrange(0, head.len() as int) =~= top.subrange(0, head.len() as int));
    assert(j.subrange(j.len() - tail.len(), j.len() as int) =~= bottom.subrange(
        bottom.len() - tail.len(),
        bottom.len() as int,
    ));
}

/// Raw transport packets are traced as frames in their own color: the text starts with the
/// color, the top-left corner and the title, and ends with the bottom-right corner and the
/// color reset. Every other event is one plain line that starts with its title.
pub proof fn lemma_trace_text_shapes(e: TraceEvent)
    ensures
        match packet_frame_of(e) {
            Some((color, title)) => starts_and_ends(
                event_text(e),
                color + "╭"@ + " "@ + title + " "@,
                "╯"@ + ANSI_RESET@,
            ),
            None => {
                let t = line_title_of(e);
                &&& t.len() > 0
                &&& t[0] == '['
                &&& event_text(e).len() > t.len()
                &&& event_text(e).subrange(0, t.len() as int) == t
            },
        },
{
    reveal_strlit("[TX:raw]");
    reveal_strlit("[RX:raw]");
    reveal_strlit("[RX:assembled]");
    reveal_strlit("[QOS:tx]");
    reveal_strlit("[RX:chunk]");
    reveal_strlit("[RX:frame]");
    reveal_strlit("[QOS:ack]");
    reveal_strlit("[QOS:event-ack]");
    reveal_strlit("[QOS:retry]");
    reveal_strlit(" ");
    match e {
        TraceEvent::TxRaw { kind, bytes, redacted } => {
            let meta = seq![
                "kind     "@ + kind.label_text(),
                "bytes    "@ + decimal(bytes@.len()),
                "redacted "@ + bool_text(redacted),
            ];
            let middle = metadata_lines(ANSI_GREEN@, meta) + wrapped(
                "packet "@ + packet_view(bytes@, false),
                TRACE_BOX_TEXT_WIDTH as nat,
            ).map_values(|l: Seq<char>| box_line(ANSI_GREEN@, l));
            lemma_frame_ends(ANSI_GREEN@, "[TX:raw]"@, middle);
            assert(seq![box_top(ANSI_GREEN@, "[TX:raw]"@)] + metadata_lines(ANSI_GREEN@, meta)
                + wrapped("packet "@ + packet_view(bytes@, false), TRACE_BOX_TEXT_WIDTH as nat).map_values(
                |l: Seq<char>| box_line(ANSI_GREEN@, l),
            ) + seq![box_bottom(ANSI_GREEN@)] =~= seq![box_top(ANSI_GREEN@, "[TX:raw]"@)]
                + middle + seq![box_bottom(ANSI_GREEN@)]);
        },
        TraceEvent::RxRaw { bytes } => {
            let meta = seq!["bytes  "@ + decimal(bytes@.len())];
            let middle = metadata_lines(ANSI_BLUE@, meta) + wrapped(
                "packet "@ + packet_view(bytes@, false),
                TRACE_BOX_TEXT_WIDTH as nat,
            ).map_values(|l: Seq<char>| box_line(ANSI_BLUE@, l));
            lemma_frame_ends(ANSI_BLUE@, "[RX:raw]"@, middle);
            assert(seq![box_top(ANSI_BLUE@, "[RX:raw]"@)] + metadata_lines(ANSI_BLUE@, meta)
                + wrapped("packet "@ + packet_view(bytes@, false), TRACE_BOX_TEXT_WIDTH as nat).map_values(
                |l: Seq<char>| box_line(ANSI_BLUE@, l),
            ) + seq![box_bottom(ANSI_BLUE@)] =~= seq![box_top(ANSI_BLUE@, "[RX:raw]"@)] + middle
                + seq![box_bottom(ANSI_BLUE@)]);
        },
        TraceEvent::RxAssembled { bytes } => {
            let meta = seq!["bytes  "@ + decimal(bytes@.len())];
            let middle = metadata_lines(ANSI_PURPLE@, meta) + seq![
                box_separator(ANSI_PURPLE@, " packet "@),
            ] + packet_lines(packet_view(bytes@, true));
            lemma_frame_ends(ANSI_PURPLE@, "[RX:assembled]"@, middle);
            assert(seq![box_top(ANSI_PURPLE@, "[RX:assembled]"@)] + metadata_lines(
                ANSI_PURPLE@,
                meta,
            ) + seq![box_separator(ANSI_PURPLE@, " packet "@)] + packet_lines(
                packet_view(bytes@, true),
            ) + seq![box_bottom(ANSI_PURPLE@)] =~= seq![box_top(ANSI_PURPLE@, "[RX:assembled]"@)]
                + middle + seq![box_bottom(ANSI_PURPLE@)]);
        },
        _ => {
            let t = line_title_of(e);
            assert(event_text(e).subrange(0, t.len() as int) =~= t);
        },
    }
}

} // verus!
