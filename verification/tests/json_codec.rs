use rpc_core::basics::{decode_envelope, WsRequest};
use rpc_core::json::{lookup_field, parse_json, parse_json_bytes, JsonValue};

#[test]
fn parse_json_reads_structure() {
    let v = parse_json("{\"a\": 1, \"b\": [true, null], \"c\": \"x\"}").unwrap();
    let expected = JsonValue::Obj(vec![
        ("a".to_string(), JsonValue::Int(1)),
        ("b".to_string(), JsonValue::Arr(vec![JsonValue::Bool(true), JsonValue::Null])),
        ("c".to_string(), JsonValue::Str("x".to_string())),
    ]);
    assert_eq!(v, expected);
}

#[test]
fn parse_json_rejects_malformed_text() {
    assert!(parse_json("{oops").is_err());
    assert!(parse_json("").is_err());
    assert!(parse_json("{\"a\": }").is_err());
}

#[test]
fn parse_json_bytes_matches_text_parse() {
    let from_text = parse_json("[1, 2, 3]").unwrap();
    let from_bytes = parse_json_bytes(&b"[1, 2, 3]".to_vec()).unwrap();
    assert_eq!(from_text, from_bytes);
    assert!(parse_json_bytes(&b"{bad".to_vec()).is_err());
}

#[test]
fn envelope_decodes_method_seq_params() {
    let v = parse_json("{\"method\": 20660, \"seq\": 1, \"params\": {}}").unwrap();
    let req = decode_envelope(&v).unwrap();
    assert_eq!(
        req,
        WsRequest { method: 20660, seq: 1, params: JsonValue::Obj(vec![]) }
    );
}

#[test]
fn envelope_rejects_missing_or_bad_fields() {
    let missing_params = parse_json("{\"method\": 1, \"seq\": 2}").unwrap();
    assert!(decode_envelope(&missing_params).is_none());
    let bad_method = parse_json("{\"method\": -1, \"seq\": 2, \"params\": null}").unwrap();
    assert!(decode_envelope(&bad_method).is_none());
    let huge_method = parse_json("{\"method\": 4294967296, \"seq\": 2, \"params\": null}").unwrap();
    assert!(decode_envelope(&huge_method).is_none());
    let not_object = parse_json("[1, 2]").unwrap();
    assert!(decode_envelope(&not_object).is_none());
}

#[test]
fn duplicate_copies_deeply() {
    let v = parse_json("{\"a\": [1, \"x\"], \"b\": null}").unwrap();
    let w = v.duplicate();
    assert_eq!(v, w);
}

#[test]
fn object_lookup_finds_first_match() {
    let fields = vec![
        ("k".to_string(), JsonValue::Int(1)),
        ("m".to_string(), JsonValue::Int(2)),
    ];
    assert_eq!(lookup_field(&fields, "m"), Some(&JsonValue::Int(2)));
    assert_eq!(lookup_field(&fields, "zz"), None);
}
