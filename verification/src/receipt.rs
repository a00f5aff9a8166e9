use vstd::prelude::*;

use crate::json::{entry_value, find_entry, JsonEntry, JsonNumber, JsonValue};
use crate::protocol::CommandResponse;
use crate::text::text;

verus! {

/// What acknowledges one chunk of a chunked response.
#[derive(Debug, Clone, PartialEq, Eq)]
pub struct ChunkReceipt {
    pub response_id: String,
    pub response_seq: u64,
    pub chunk_index: usize,
    pub chunk_total: usize,
}

/// A chunk receipt as values.
pub struct ReceiptView {
    pub response_id: Seq<char>,
    pub response_seq: u64,
    pub chunk_index: usize,
    pub chunk_total: usize,
}

impl View for ChunkReceipt {
    type V = ReceiptView;

    open spec fn view(&self) -> ReceiptView {
        ReceiptView {
            response_id: self.response_id@,
            response_seq: self.response_seq,
            chunk_index: self.chunk_index,
            chunk_total: self.chunk_total,
        }
    }
}

/// The members of an object value.
pub open spec fn object_members(v: Option<JsonValue>) -> Option<Seq<JsonEntry>> {
    match v {
        Some(JsonValue::Object(es)) => Some(es@),
        _ => None,
    }
}

/// A non-negative integer value, as `serde_json::Value::as_u64` reads one.
pub open spec fn unsigned_value(v: Option<JsonValue>) -> Option<u64> {
    match v {
        Some(JsonValue::Number(JsonNumber::Unsigned(u))) => Some(u),
        _ => None,
    }
}

pub open spec fn bool_value(v: Option<JsonValue>) -> Option<bool> {
    match v {
        Some(JsonValue::Bool(b)) => Some(b),
        _ => None,
    }
}

/// The receipt owed for a chunk of a chunked response: its `data.chunk` object asks for
/// an acknowledgement and numbers the chunk with positive `index` and `total`.
pub open spec fn receipt_for(r: CommandResponse) -> Option<ReceiptView> {
    match r.data {
        None => None,
        Some(data) => match object_members(entry_value(data@, "chunk"@)) {
            None => None,
            Some(chunk) => {
                let ack = match bool_value(entry_value(chunk, "ack_required"@)) {
                    Some(b) => b,
                    None => false,
                };
                let index = unsigned_value(entry_value(chunk, "index"@));
                let total = unsigned_value(entry_value(chunk, "total"@));
                if !ack || index is None || total is None {
                    None
                } else if index->0 as usize == 0 || total->0 as usize == 0 {
                    None
                } else {
                    Some(
                        ReceiptView {
                            response_id: r.id@,
                            response_seq: r.seq,
                            chunk_index: index->0 as usize,
                            chunk_total: total->0 as usize,
                        },
                    )
                }
            },
        },
    }
}

fn member<'a>(entries: &'a Vec<JsonEntry>, key: &str) -> (r: Option<&'a JsonValue>)
    ensures
        match r {
            Some(v) => entry_value(entries@, key@) == Some(*v),
            None => entry_value(entries@, key@) is None,
        },
{
    match find_entry(entries, key) {
        Some(i) => Some(&entries[i].value),
        None => None,
    }
}

fn unsigned_member(entries: &Vec<JsonEntry>, key: &str) -> (r: Option<u64>)
    ensures
        r == unsigned_value(entry_value(entries@, key@)),
{
    match member(entries, key) {
        Some(JsonValue::Number(JsonNumber::Unsigned(u))) => Some(*u),
        _ => None,
    }
}

/// The receipt to send for a response, when it is a chunk that asks for one.
pub fn chunk_receipt(response: &CommandResponse) -> (r: Option<ChunkReceipt>)
    ensures
        match r {
            Some(c) => receipt_for(*response) == Some(c@),
            None => receipt_for(*response) is None,
        },
{
    let data = match &response.data {
        Some(d) => d,
        None => {
            return None;
        },
    };
    let chunk = match member(data, "chunk") {
        Some(JsonValue::Object(es)) => es,
        _ => {
            return None;
        },
    };
    let ack = match member(chunk, "ack_required") {
        Some(JsonValue::Bool(b)) => *b,
        _ => false,
    };
    if !ack {
        return None;
    }
    let index = match unsigned_member(chunk, "index") {
        Some(u) => u as usize,
        None => {
            return None;
        },
    };
    let total = match unsigned_member(chunk, "total") {
        Some(u) => u as usize,
        None => {
            return None;
        },
    };
    if index == 0 || total == 0 {
        return None;
    }
    Some(
        ChunkReceipt {
            response_id: text(response.id.as_str()),
            response_seq: response.seq,
            chunk_index: index,
            chunk_total: total,
        },
    )
}

} // verus!
