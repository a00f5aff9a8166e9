use vstd::prelude::*;

use crate::text::text_eq;

verus! {

/// A JSON number: a non-negative integer, a negative integer, or any other number kept
/// as its decimal text.
#[derive(Debug, Clone, PartialEq)]
pub enum JsonNumber {
    Unsigned(u64),
    Negative(i64),
    Decimal(String),
}

/// A JSON value.
#[derive(Debug, PartialEq)]
pub enum JsonValue {
    Null,
    Bool(bool),
    Number(JsonNumber),
    String(String),
    Array(Vec<JsonValue>),
    Object(Vec<JsonEntry>),
}

/// One member of a JSON object.
#[derive(Debug, PartialEq)]
pub struct JsonEntry {
    pub key: String,
    pub value: JsonValue,
}

/// What a number is, by kind.
pub enum NumberView {
    Unsigned(u64),
    Negative(i64),
    Decimal(Seq<char>),
}

/// What a member value is, as far as request arguments look into it: arrays by which
/// elements are strings (and their text).
pub enum ArgView {
    Null,
    Bool(bool),
    Number(NumberView),
    Str(Seq<char>),
    Array(Seq<Option<Seq<char>>>),
    Object,
}

pub open spec fn number_view(n: JsonNumber) -> NumberView {
    match n {
        JsonNumber::Unsigned(u) => NumberView::Unsigned(u),
        JsonNumber::Negative(i) => NumberView::Negative(i),
        JsonNumber::Decimal(t) => NumberView::Decimal(t@),
    }
}

pub open spec fn element_text(v: JsonValue) -> Option<Seq<char>> {
    match v {
        JsonValue::String(s) => Some(s@),
        _ => None,
    }
}

pub open spec fn arg_view(v: JsonValue) -> ArgView {
    match v {
        JsonValue::Null => ArgView::Null,
        JsonValue::Bool(b) => ArgView::Bool(b),
        JsonValue::Number(n) => ArgView::Number(number_view(n)),
        JsonValue::String(s) => ArgView::Str(s@),
        JsonValue::Array(items) => ArgView::Array(items@.map_values(|x: JsonValue| element_text(x))),
        JsonValue::Object(_) => ArgView::Object,
    }
}

/// The members of an object as (key, value) pairs.
pub open spec fn entries_view(entries: Seq<JsonEntry>) -> Seq<(Seq<char>, ArgView)> {
    entries.map_values(|e: JsonEntry| (e.key@, arg_view(e.value)))
}

/// The value of the first member with the given key.
pub open spec fn lookup(entries: Seq<(Seq<char>, ArgView)>, key: Seq<char>) -> Option<ArgView>
    decreases entries.len(),
{
    if entries.len() == 0 {
        None
    } else if entries[0].0 == key {
        Some(entries[0].1)
    } else {
        lookup(entries.drop_first(), key)
    }
}

/// The value of the first member with the given key, as stored.
pub open spec fn entry_value(entries: Seq<JsonEntry>, key: Seq<char>) -> Option<JsonValue>
    decreases entries.len(),
{
    if entries.len() == 0 {
        None
    } else if entries[0].key@ == key {
        Some(entries[0].value)
    } else {
        entry_value(entries.drop_first(), key)
    }
}

/// The position of the first member with the given key, if any.
pub fn find_entry(entries: &Vec<JsonEntry>, key: &str) -> (r: Option<usize>)
    ensures
        match r {
            Some(i) => i < entries@.len() && lookup(entries_view(entries@), key@) == Some(
                arg_view(entries@[i as int].value),
            ) && entry_value(entries@, key@) == Some(entries@[i as int].value),
            None => lookup(entries_view(entries@), key@) is None && entry_value(entries@, key@) is None,
        },
{
    let ghost all = entries_view(entries@);
    let mut i: usize = 0;
    assert(all.subrange(0, all.len() as int) =~= all);
    assert(entries@.subrange(0, entries@.len() as int) =~= entries@);
    while i < entries.len()
        invariant
            i <= entries@.len(),
            all == entries_view(entries@),
            lookup(all, key@) == lookup(all.subrange(i as int, all.len() as int), key@),
            entry_value(entries@, key@) == entry_value(
                entries@.subrange(i as int, entries@.len() as int),
                key@,
            ),
        decreases entries@.len() - i,
    {
        let ghost rest = all.subrange(i as int, all.len() as int);
        assert(rest.drop_first() =~= all.subrange(i + 1, all.len() as int));
        assert(entries@.subrange(i as int, entries@.len() as int).drop_first() =~= entries@.subrange(
            i + 1,
            entries@.len() as int,
        ));
        if text_eq(entries[i].key.as_str(), key) {
            return Some(i);
        }
        i = i + 1;
    }
    None
}

} // verus!
