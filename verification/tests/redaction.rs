use yundrone_ble::json::{JsonEntry, JsonValue};
use yundrone_ble::redaction::{redact_json, redact_secrets, redacted_payload};

fn s(text: &str) -> JsonValue {
    JsonValue::String(text.to_string())
}

fn member(key: &str, value: JsonValue) -> JsonEntry {
    JsonEntry { key: key.to_string(), value }
}

fn object(members: Vec<JsonEntry>) -> JsonValue {
    JsonValue::Object(members)
}

fn get<'a>(value: &'a JsonValue, key: &str) -> &'a JsonValue {
    match value {
        JsonValue::Object(members) => &members.iter().find(|m| m.key == key).unwrap().value,
        _ => panic!("not an object"),
    }
}

/// `{"cmd":"wifi.provision","args":{"ssid":"Lab","pwd":"secret","password":"secret2","nested":{"psk":"abc"}}}`
fn provision_payload() -> JsonValue {
    object(vec![
        member("cmd", s("wifi.provision")),
        member(
            "args",
            object(vec![
                member("ssid", s("Lab")),
                member("pwd", s("secret")),
                member("password", s("secret2")),
                member("nested", object(vec![member("psk", s("abc"))])),
            ]),
        ),
    ])
}

#[test]
fn redacts_known_secret_keys_in_values() {
    let (redacted, changed) = redact_json(provision_payload());

    assert!(changed);
    let args = get(&redacted, "args");
    assert_eq!(get(args, "pwd"), &s("***"));
    assert_eq!(get(args, "password"), &s("***"));
    assert_eq!(get(get(args, "nested"), "psk"), &s("***"));
    assert!(!format!("{redacted:?}").contains("secret"));
    assert_eq!(get(args, "ssid"), &s("Lab"));
}

#[test]
fn leaves_non_secret_values_unchanged() {
    let raw = || object(vec![member("cmd", s("system.status")), member("args", object(vec![]))]);

    let (redacted, changed) = redact_json(raw());

    assert!(!changed);
    assert_eq!(redacted, raw());
}

#[test]
fn secret_keys_match_in_any_letter_case() {
    let mut value = object(vec![member("PassPhrase", s("hunter2")), member("PSK", JsonValue::Null)]);
    assert!(redact_secrets(&mut value));
    assert_eq!(value, object(vec![member("PassPhrase", s("***")), member("PSK", s("***"))]));
}

#[test]
fn already_masked_secret_counts_as_unchanged() {
    let mut value = object(vec![member("pwd", s("***"))]);
    assert!(!redact_secrets(&mut value));
    assert_eq!(value, object(vec![member("pwd", s("***"))]));
}

#[test]
fn array_redaction_stops_after_first_changed_element() {
    let array = || {
        JsonValue::Array(vec![
            object(vec![member("ssid", s("A"))]),
            object(vec![member("pwd", s("a"))]),
            object(vec![member("pwd", s("b"))]),
        ])
    };
    let (once, changed) = redact_json(array());
    assert!(changed);
    assert_eq!(
        once,
        JsonValue::Array(vec![
            object(vec![member("ssid", s("A"))]),
            object(vec![member("pwd", s("***"))]),
            object(vec![member("pwd", s("b"))]),
        ])
    );
    let (twice, changed) = redact_json(once);
    assert!(changed);
    assert_eq!(get(&match twice { JsonValue::Array(mut v) => v.remove(2), _ => panic!() }, "pwd"), &s("***"));
}

#[test]
fn scalars_are_kept() {
    assert_eq!(redact_json(s("pwd")), (s("pwd"), false));
    assert_eq!(redact_json(JsonValue::Bool(true)), (JsonValue::Bool(true), false));
}

#[test]
fn redacts_known_secret_keys() {
    let raw = br#"{"cmd":"wifi.provision","args":{"ssid":"Lab","pwd":"secret","password":"secret2","nested":{"psk":"abc"}}}"#;

    let (redacted, changed) = redacted_payload(raw);
    let text = String::from_utf8(redacted).unwrap();

    assert!(changed);
    assert!(text.contains(r#""pwd":"***""#));
    assert!(text.contains(r#""password":"***""#));
    assert!(text.contains(r#""psk":"***""#));
    assert!(!text.contains("secret"));
    assert!(text.contains("Lab"));
}

#[test]
fn leaves_non_secret_payload_unchanged() {
    let raw = br#"{"cmd":"system.status","args":{}}"#;

    let (redacted, changed) = redacted_payload(raw);

    assert!(!changed);
    assert_eq!(redacted, raw);
}

#[test]
fn non_json_payload_is_kept() {
    let (redacted, changed) = redacted_payload(b"not json");
    assert!(!changed);
    assert_eq!(redacted, b"not json");
}
