use yundrone_ble::chunk_plan::{cut_payloads, response_json_chunks, ChunkPlan};
use yundrone_ble::chunking::{ChunkAssembler, ChunkOutcome, ResponseDecoder};
use yundrone_ble::json::{JsonEntry, JsonNumber, JsonValue};
use yundrone_ble::protocol::{CommandResponse, ProtocolError};
use yundrone_ble::receipt::ChunkReceipt;

fn member(key: &str, value: JsonValue) -> JsonEntry {
    JsonEntry { key: key.to_string(), value }
}

fn num(n: u64) -> JsonValue {
    JsonValue::Number(JsonNumber::Unsigned(n))
}

/// The JSON text of an `ok` response with a long text, as the gateway writes it.
fn full_text(id: &str, text: &str) -> String {
    format!(r#"{{"id":"{id}","phase":"result","seq":1,"final":true,"ok":true,"code":"OK","text":"{text}","v":"YundroneBT-V2.1.0"}}"#)
}

/// The `response_json` chunks the library makes of the serialized response `text` of
/// response `id`: the chunk plan cuts the text, taking a piece as fitting when it has at
/// most `size` characters (the client measures the encoded chunk instead), and the
/// library builds one chunk per piece.
fn json_chunks(id: &str, text: &str, size: usize) -> Vec<CommandResponse> {
    let mut plan = ChunkPlan::new(text.chars().count());
    while let Some((_, len)) = plan.probe() {
        plan.record(len <= size);
    }
    let base = CommandResponse::ok(id.to_string(), String::new(), None);
    response_json_chunks(&base, cut_payloads(&plan, text))
}

fn decode_all(decoder: &mut ResponseDecoder, chunks: Vec<CommandResponse>) -> Option<String> {
    let mut assembled = None;
    for chunk in chunks {
        match decoder.decode_response(chunk).unwrap().outcome {
            ChunkOutcome::JsonText(text) => assembled = Some(text),
            ChunkOutcome::Pending => {}
            ChunkOutcome::Complete(_) => panic!("a chunk is not a whole response"),
        }
    }
    assembled
}

#[test]
fn decode_unchunked_response() {
    let mut decoder = ResponseDecoder::new();
    let event = decoder.decode_response(CommandResponse::ok("req-1".to_string(), "ok".to_string(), None)).unwrap();
    match event.outcome {
        ChunkOutcome::Complete(decoded) => assert_eq!(decoded, CommandResponse::ok("req-1".to_string(), "ok".to_string(), None)),
        _ => panic!("expected the response itself"),
    }
}

#[test]
fn decode_chunked_response_round_trip() {
    let full = full_text("req-2", &"x".repeat(400));
    let mut decoder = ResponseDecoder::new();
    assert_eq!(decode_all(&mut decoder, json_chunks("req-2", &full, 150)), Some(full));
}

#[test]
fn decode_chunked_large_data_response_round_trip() {
    let networks: Vec<String> = (0..18)
        .map(|index| format!(r#"{{"ssid":"MeshNode-{index:02}-Backhaul-SSID","channel":"{}","signal":{}}}"#, (index % 11) + 1, 80 - index))
        .collect();
    let full = format!(
        r#"{{"id":"req-3","phase":"result","seq":1,"final":true,"ok":true,"code":"OK","text":"wifi scan complete","data":{{"ifname":"wlan0","count":18,"networks":[{}]}},"v":"YundroneBT-V2.1.0"}}"#,
        networks.join(",")
    );
    let chunks = json_chunks("req-3", &full, 200);
    assert!(chunks.len() > 1);
    let mut decoder = ResponseDecoder::new();
    assert_eq!(decode_all(&mut decoder, chunks), Some(full));
}

#[test]
fn decode_event_reports_chunk_receipt_before_assembly() {
    let full = full_text("req-4", &"x".repeat(500));
    let chunks = json_chunks("req-4", &full, 150);
    let total = chunks.len();
    let mut decoder = ResponseDecoder::new();

    let event = decoder.decode_response(chunks.into_iter().next().unwrap()).unwrap();

    assert_eq!(
        event.chunk_receipt,
        Some(ChunkReceipt { response_id: "req-4".to_string(), response_seq: 1, chunk_index: 1, chunk_total: total })
    );
    assert!(matches!(event.outcome, ChunkOutcome::Pending));
    assert!(event.assembled_from_chunks);
}

#[test]
fn decode_event_marks_plain_response_as_not_chunk_assembled() {
    let mut decoder = ResponseDecoder::new();
    let event = decoder.decode_response(CommandResponse::ok("req-plain".to_string(), "ok".to_string(), None)).unwrap();
    assert!(matches!(event.outcome, ChunkOutcome::Complete(_)));
    assert!(!event.assembled_from_chunks);
}

#[test]
fn decode_event_marks_completed_chunk_response_as_chunk_assembled() {
    let full = full_text("req-chunked", &"x".repeat(500));
    let mut decoder = ResponseDecoder::new();
    let mut final_event = None;
    for chunk in json_chunks("req-chunked", &full, 150) {
        let event = decoder.decode_response(chunk).unwrap();
        if matches!(event.outcome, ChunkOutcome::JsonText(_)) {
            final_event = Some(event);
        }
    }
    assert!(final_event.expect("chunked response should complete").assembled_from_chunks);
}

#[test]
fn duplicate_chunk_does_not_prevent_assembly() {
    let full = full_text("req-5", &"x".repeat(500));
    let chunks = json_chunks("req-5", &full, 150);
    let mut decoder = ResponseDecoder::new();
    let first = || json_chunks("req-5", &full, 150).into_iter().next().unwrap();
    assert!(matches!(decoder.decode_response(first()).unwrap().outcome, ChunkOutcome::Pending));
    assert!(matches!(decoder.decode_response(first()).unwrap().outcome, ChunkOutcome::Pending));
    assert_eq!(decode_all(&mut decoder, chunks.into_iter().skip(1).collect()), Some(full));
}

#[test]
fn legacy_chunks_rebuild_the_response_text_and_data() {
    let legacy = |index: u64, total: u64, text: &str, extra: Option<JsonEntry>| {
        let mut data = vec![member("chunk", JsonValue::Object(vec![member("index", num(index)), member("total", num(total))]))];
        if let Some(e) = extra {
            data.push(e);
        }
        CommandResponse::result("req-6".to_string(), None, true, "OK".to_string(), text.to_string(), Some(data))
    };
    let mut assembler = ChunkAssembler::new();
    assert!(matches!(assembler.add_chunk(legacy(2, 2, "world", None)).unwrap(), ChunkOutcome::Pending));
    match assembler.add_chunk(legacy(1, 2, "hello ", Some(member("count", num(3))))).unwrap() {
        ChunkOutcome::Complete(r) => {
            assert_eq!(r.id, "req-6");
            assert_eq!(r.text, "hello world");
            assert_eq!(r.data, Some(vec![member("count", num(3))]));
            assert!(r.ok && r.final_flag);
        }
        _ => panic!("expected the assembled response"),
    }
}

#[test]
fn chunk_with_other_mode_or_bad_header_is_refused() {
    let with_chunk = |chunk: JsonValue| {
        CommandResponse::result("req-7".to_string(), None, true, "OK".to_string(), String::new(), Some(vec![member("chunk", chunk)]))
    };
    let mut assembler = ChunkAssembler::new();
    let other_mode = JsonValue::Object(vec![
        member("mode", JsonValue::String("base64".to_string())),
        member("index", num(1)),
        member("total", num(1)),
        member("payload", JsonValue::String("x".to_string())),
    ]);
    assert_eq!(
        assembler.add_chunk(with_chunk(other_mode)).err(),
        Some(ProtocolError::BadRequest("unsupported chunk mode".to_string()))
    );
    assert!(matches!(
        assembler.add_chunk(with_chunk(JsonValue::String("x".to_string()))),
        Err(ProtocolError::BadJson(_))
    ));
}

/// Runs a plan over `raw`, answering with `fits` for each candidate length.
fn plan_pieces(raw: &str, fits: impl Fn(usize, usize) -> bool) -> Vec<String> {
    let mut plan = ChunkPlan::new(raw.chars().count());
    while let Some((start, len)) = plan.probe() {
        plan.record(fits(start, len));
    }
    cut_payloads(&plan, raw)
}

#[test]
fn chunk_plan_cuts_the_longest_pieces_that_fit() {
    let pieces = plan_pieces("abcdefghij", |_, len| len <= 4);
    assert_eq!(pieces, vec!["abcd", "efgh", "ij"]);
    assert_eq!(pieces.concat(), "abcdefghij");
}

#[test]
fn chunk_plan_cuts_single_characters_when_nothing_fits() {
    let pieces = plan_pieces("héllo", |_, _| false);
    assert_eq!(pieces, vec!["h", "é", "l", "l", "o"]);
}

#[test]
fn chunk_plan_keeps_a_text_that_fits_whole() {
    assert_eq!(plan_pieces("short", |_, _| true), vec!["short"]);
    assert!(plan_pieces("", |_, _| true).is_empty());
}

#[test]
fn planned_chunks_reassemble_the_serialized_response() {
    let raw = full_text("req-3", &"wifi scan complete ".repeat(30));
    let pieces = plan_pieces(&raw, |_, len| len <= 100);
    assert!(pieces.len() > 1);
    assert!(pieces.iter().all(|p| p.chars().count() <= 100));
    let base = CommandResponse::ok("req-3".to_string(), String::new(), None);
    let chunks = response_json_chunks(&base, pieces);
    let mut decoder = ResponseDecoder::new();
    assert_eq!(decode_all(&mut decoder, chunks), Some(raw));
}
