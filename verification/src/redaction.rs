use vstd::prelude::*;

use crate::json::{JsonEntry, JsonValue};
use crate::json_codec::{json_bytes_of, json_parse_of, json_to_vec, parse_json};
use crate::text::{text, text_eq};
use crate::trace::{is_secret_key, secret_key};

verus! {

/// The text that stands in for a secret.
pub open spec fn is_mask(v: JsonValue) -> bool {
    v matches JsonValue::String(s) && s@ == "***"@
}

/// Redacting `v` changes it: some secret member, at any depth, does not hold the mask yet.
/// In an array only the elements up to the first one that changes are looked at.
pub open spec fn needs_redaction(v: JsonValue) -> bool
    decreases v, 0int,
{
    match v {
        JsonValue::Object(entries) => entries_need(entries@, 0),
        JsonValue::Array(items) => items_need(items@, 0),
        _ => false,
    }
}

/// Some member of `es` from position `i` on needs redaction.
pub open spec fn entries_need(es: Seq<JsonEntry>, i: int) -> bool
    decreases es, es.len() - i,
{
    if 0 <= i < es.len() {
        (if secret_key(es[i].key@) {
            !is_mask(es[i].value)
        } else {
            needs_redaction(es[i].value)
        }) || entries_need(es, i + 1)
    } else {
        false
    }
}

/// Some element of `xs` from position `i` on needs redaction.
pub open spec fn items_need(xs: Seq<JsonValue>, i: int) -> bool
    decreases xs, xs.len() - i,
{
    if 0 <= i < xs.len() {
        needs_redaction(xs[i]) || items_need(xs, i + 1)
    } else {
        false
    }
}

/// `after` is `before` redacted: every secret member of an object holds the mask, every
/// other member is redacted in turn; an array's elements are redacted up to and including
/// the first one that changes, and the rest are kept as they were; other values are kept.
pub open spec fn redacted_as(before: JsonValue, after: JsonValue) -> bool
    decreases before, 0int,
{
    match before {
        JsonValue::Object(es) => after matches JsonValue::Object(es2) && es2@.len() == es@.len()
            && entries_redacted(es@, es2@, 0),
        JsonValue::Array(xs) => after matches JsonValue::Array(xs2) && xs2@.len() == xs@.len()
            && items_redacted(xs@, xs2@, 0),
        _ => after == before,
    }
}

/// Members from position `i` on of `a` are redacted as `b`'s.
pub open spec fn entries_redacted(a: Seq<JsonEntry>, b: Seq<JsonEntry>, i: int) -> bool
    decreases a, a.len() - i,
{
    if 0 <= i < a.len() {
        &&& b[i].key@ == a[i].key@
        &&& if secret_key(a[i].key@) {
            is_mask(b[i].value)
        } else {
            redacted_as(a[i].value, b[i].value)
        }
        &&& entries_redacted(a, b, i + 1)
    } else {
        true
    }
}

/// Elements from position `i` on of `a` are redacted as `b`'s, up to the first that changes.
pub open spec fn items_redacted(a: Seq<JsonValue>, b: Seq<JsonValue>, i: int) -> bool
    decreases a, a.len() - i,
{
    if 0 <= i < a.len() {
        &&& redacted_as(a[i], b[i])
        &&& if needs_redaction(a[i]) {
            forall|j: int| i < j < a.len() ==> #[trigger] b[j] == a[j]
        } else {
            items_redacted(a, b, i + 1)
        }
    } else {
        true
    }
}

fn mask() -> (r: JsonValue)
    ensures
        is_mask(r),
{
    JsonValue::String(text("***"))
}

fn holds_mask(v: &JsonValue) -> (r: bool)
    ensures
        r == is_mask(*v),
{
    match v {
        JsonValue::String(s) => text_eq(s.as_str(), "***"),
        _ => false,
    }
}

/// Replaces the value of every secret member (`pwd`, `password`, `passphrase`, `psk`, in
/// any letter case) with `"***"`, at any depth; tells whether anything changed. In an
/// array, redaction stops after the first element it changes.
pub fn redact_json(value: JsonValue) -> (r: (JsonValue, bool))
    ensures
        redacted_as(value, r.0),
        r.1 == needs_redaction(value),
    decreases value,
{
    let ghost before = value;
    match value {
        JsonValue::Object(entries) => {
            let ghost held = entries;
            let ghost es = entries@;
            let mut rest = entries;
            let mut out: Vec<JsonEntry> = Vec::new();
            let mut changed = false;
            let mut k: usize = 0;
            assert(es.len() == rest.len());
            while rest.len() > 0
                invariant
                    before == JsonValue::Object(held),
                    before == value,
                    es == held@,
                    es.len() <= usize::MAX,
                    k <= es.len(),
                    rest@ == es.subrange(k as int, es.len() as int),
                    out@.len() == k,
                    forall|i: int| 0 <= i < k ==> #[trigger] out@[i].key@ == es[i].key@ && (if secret_key(
                        es[i].key@,
                    ) {
                        is_mask(out@[i].value)
                    } else {
                        redacted_as(es[i].value, out@[i].value)
                    }),
                    changed == (exists|i: int| 0 <= i < k && #[trigger] entry_changes(es, i)),
                decreases rest@.len(),
            {
                let entry = rest.remove(0);
                assert(entry == es[k as int]);
                assert(decreases_to!(before => before->Object_0));
                assert(decreases_to!(held => held@));
                assert(decreases_to!(held@ => es[k as int]));
                assert(decreases_to!(es[k as int] => es[k as int].value));
                let JsonEntry { key, value: member } = entry;
                let ghost member_before = member;
                let here: bool;
                if is_secret_key(key.as_str()) {
                    here = !holds_mask(&member);
                    out.push(JsonEntry { key, value: mask() });
                } else {
                    assert(decreases_to!(before => member_before));
                    let (redacted, c) = redact_json(member);
                    here = c;
                    out.push(JsonEntry { key, value: redacted });
                }
                assert(here == entry_changes(es, k as int));
                changed = changed || here;
                k = k + 1;
                assert(rest@ =~= es.subrange(k as int, es.len() as int));
            }
            let result = JsonValue::Object(out);
            proof {
                lemma_entries_redacted_from(es, out@, 0);
                lemma_entries_need_from(es, 0);
            }
            (result, changed)
        },
        JsonValue::Array(items) => {
            let ghost held = items;
            let ghost xs = items@;
            let mut rest = items;
            let mut out: Vec<JsonValue> = Vec::new();
            let mut changed = false;
            let ghost mut first: int = 0;
            let mut k: usize = 0;
            assert(xs.len() == rest.len());
            while rest.len() > 0
                invariant
                    before == JsonValue::Array(held),
                    before == value,
                    xs == held@,
                    xs.len() <= usize::MAX,
                    k <= xs.len(),
                    rest@ == xs.subrange(k as int, xs.len() as int),
                    out@.len() == k,
                    changed ==> 0 <= first < k && needs_redaction(xs[first]),
                    changed ==> forall|j: int| first < j < k ==> #[trigger] out@[j] == xs[j],
                    forall|i: int| 0 <= i < k && (!changed || i <= first) ==> redacted_as(
                        xs[i],
                        #[trigger] out@[i],
                    ),
                    forall|i: int| 0 <= i < k && (!changed || i < first) ==> !#[trigger] needs_redaction(
                        xs[i],
                    ),
                decreases rest@.len(),
            {
                let x = rest.remove(0);
                assert(x == xs[k as int]);
                if changed {
                    out.push(x);
                } else {
                    assert(decreases_to!(before => before->Array_0));
                    assert(decreases_to!(held => held@));
                    assert(decreases_to!(held@ => xs[k as int]));
                    let (redacted, c) = redact_json(x);
                    out.push(redacted);
                    changed = c;
                    proof {
                        first = k as int;
                    }
                }
                k = k + 1;
                assert(rest@ =~= xs.subrange(k as int, xs.len() as int));
            }
            proof {
                if changed {
                    lemma_items_prefix(xs, out@, first, 0);
                } else {
                    lemma_items_clean(xs, out@, 0);
                }
            }
            (JsonValue::Array(out), changed)
        },
        other => (other, false),
    }
}

/// Member `i` of `es` is changed by redaction.
pub open spec fn entry_changes(es: Seq<JsonEntry>, i: int) -> bool {
    if secret_key(es[i].key@) {
        !is_mask(es[i].value)
    } else {
        needs_redaction(es[i].value)
    }
}

proof fn lemma_entries_redacted_from(a: Seq<JsonEntry>, b: Seq<JsonEntry>, i: int)
    requires
        0 <= i <= a.len(),
        b.len() == a.len(),
        forall|j: int| 0 <= j < a.len() ==> #[trigger] b[j].key@ == a[j].key@ && (if secret_key(
            a[j].key@,
        ) {
            is_mask(b[j].value)
        } else {
            redacted_as(a[j].value, b[j].value)
        }),
    ensures
        entries_redacted(a, b, i),
    decreases a.len() - i,
{
    if i < a.len() {
        lemma_entries_redacted_from(a, b, i + 1);
        assert(b[i].key@ == a[i].key@);
    }
}

proof fn lemma_entries_need_from(a: Seq<JsonEntry>, i: int)
    requires
        0 <= i <= a.len(),
    ensures
        entries_need(a, i) == exists|j: int| i <= j < a.len() && #[trigger] entry_changes(a, j),
    decreases a.len() - i,
{
    if i < a.len() {
        lemma_entries_need_from(a, i + 1);
        if entry_changes(a, i) {
        } else {
            if entries_need(a, i + 1) {
                let j = choose|j: int| i + 1 <= j < a.len() && #[trigger] entry_changes(a, j);
                assert(i <= j < a.len() && entry_changes(a, j));
            } else {
                assert forall|j: int| i <= j < a.len() implies !#[trigger] entry_changes(a, j) by {
                    if j > i {
                    }
                }
            }
        }
    }
}

proof fn lemma_items_prefix(xs: Seq<JsonValue>, out: Seq<JsonValue>, c: int, i: int)
    requires
        0 <= i <= c < xs.len(),
        out.len() == xs.len(),
        forall|k: int| 0 <= k <= c ==> redacted_as(xs[k], #[trigger] out[k]),
        needs_redaction(xs[c]),
        forall|k: int| 0 <= k < c ==> !#[trigger] needs_redaction(xs[k]),
        forall|j: int| c < j < xs.len() ==> #[trigger] out[j] == xs[j],
    ensures
        items_redacted(xs, out, i),
        items_need(xs, i),
    decreases c - i,
{
    if i < c {
        lemma_items_prefix(xs, out, c, i + 1);
        assert(!needs_redaction(xs[i]));
        assert(redacted_as(xs[i], out[i]));
    } else {
        assert(redacted_as(xs[i], out[i]));
    }
}

proof fn lemma_items_clean(xs: Seq<JsonValue>, out: Seq<JsonValue>, i: int)
    requires
        0 <= i <= xs.len(),
        out.len() == xs.len(),
        forall|k: int| 0 <= k < xs.len() ==> redacted_as(xs[k], #[trigger] out[k]),
        forall|k: int| 0 <= k < xs.len() ==> !#[trigger] needs_redaction(xs[k]),
    ensures
        items_redacted(xs, out, i),
        !items_need(xs, i),
    decreases xs.len() - i,
{
    if i < xs.len() {
        lemma_items_clean(xs, out, i + 1);
        assert(!needs_redaction(xs[i]));
        assert(redacted_as(xs[i], out[i]));
    }
}

/// Redacts `value` in place, as `redact_json` does; tells whether anything changed.
pub fn redact_secrets(value: &mut JsonValue) -> (changed: bool)
    ensures
        redacted_as(*old(value), *final(value)),
        changed == needs_redaction(*old(value)),
{
    let mut taken = JsonValue::Null;
    std::mem::swap(value, &mut taken);
    let (redacted, changed) = redact_json(taken);
    *value = redacted;
    changed
}

/// A JSON payload with its secrets masked, and whether anything changed: the bytes come
/// back as they are when they are not JSON, when nothing needs masking, or when the
/// masked value cannot be written; otherwise the masked value is written anew.
/// Masking goes through an array only up to the first element it changes: a secret in a
/// later element of the same array is left as it was.
pub fn redacted_payload(bytes: &[u8]) -> (r: (Vec<u8>, bool))
    ensures
        !r.1 ==> r.0@ == bytes@,
        !r.1 ==> match json_parse_of(bytes@) {
            None => true,
            Some(v) => !needs_redaction(v) || exists|w: JsonValue|
                redacted_as(v, w) && json_bytes_of(w) is None,
        },
        r.1 ==> (json_parse_of(bytes@) matches Some(v) && needs_redaction(v) && exists|w: JsonValue|
            redacted_as(v, w) && json_bytes_of(w) == Some(r.0@)),
{
    let value = match parse_json(bytes) {
        Some(v) => v,
        None => {
            return (copy_bytes(bytes), false);
        },
    };
    let (redacted, changed) = redact_json(value);
    if !changed {
        return (copy_bytes(bytes), false);
    }
    match json_to_vec(&redacted) {
        Some(out) => (out, true),
        None => (copy_bytes(bytes), false),
    }
}

fn copy_bytes(bytes: &[u8]) -> (r: Vec<u8>)
    ensures
        r@ == bytes@,
{
    let mut out: Vec<u8> = Vec::new();
    let mut i: usize = 0;
    while i < bytes.len()
        invariant
            i <= bytes@.len(),
            out@ == bytes@.subrange(0, i as int),
        decreases bytes@.len() - i,
    {
        out.push(bytes[i]);
        i = i + 1;
        assert(out@ =~= bytes@.subrange(0, i as int));
    }
    assert(bytes@.subrange(0, bytes@.len() as int) =~= bytes@);
    out
}

} // verus!
