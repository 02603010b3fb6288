use restroom_tp::errors::ApplyError;
use restroom_tp::field_map::FieldMap;
use restroom_tp::handler::StateTransactionHandler;
use restroom_tp::namespace::prefix;
use restroom_tp::payload::HashPayload;
use restroom_tp::state::{InMemoryStore, State};

/// A definite-length text item for strings shorter than 24 bytes.
fn text_item(s: &str) -> Vec<u8> {
    let b = s.as_bytes();
    assert!(b.len() < 24);
    let mut out = vec![0x60u8 + b.len() as u8];
    out.extend_from_slice(b);
    out
}

/// A definite-length map header for fewer than 24 entries.
fn map_header(n: usize) -> Vec<u8> {
    assert!(n < 24);
    vec![0xa0u8 + n as u8]
}

fn payload_both(value: &str, address: &str) -> Vec<u8> {
    let mut b = map_header(2);
    b.extend(text_item("value"));
    b.extend(text_item(value));
    b.extend(text_item("address"));
    b.extend(text_item(address));
    b
}

fn singleton_encoding(address: &str, value: &str) -> Vec<u8> {
    let mut b = map_header(1);
    b.extend(text_item(address));
    b.extend(text_item(value));
    b
}

#[test]
fn decode_valid_payload_returns_both_strings() {
    let b = payload_both("hello", "a1");
    let p = HashPayload::new(&b).unwrap();
    assert_eq!(p.get_value(), "hello");
    assert_eq!(p.get_address(), "a1");
}

#[test]
fn decode_ignores_extra_keys_and_field_order() {
    // {"extra": [1, 2], "address": "a1", "value": "v"}
    let mut b = map_header(3);
    b.extend(text_item("extra"));
    b.extend([0x82u8, 0x01, 0x02]);
    b.extend(text_item("address"));
    b.extend(text_item("a1"));
    b.extend(text_item("value"));
    b.extend(text_item("v"));
    let p = HashPayload::new(&b).unwrap();
    assert_eq!(p.get_value(), "v");
    assert_eq!(p.get_address(), "a1");
}

#[test]
fn decode_last_duplicate_key_wins() {
    let mut b = map_header(3);
    b.extend(text_item("value"));
    b.extend(text_item("x"));
    b.extend(text_item("value"));
    b.extend(text_item("y"));
    b.extend(text_item("address"));
    b.extend(text_item("a"));
    let p = HashPayload::new(&b).unwrap();
    assert_eq!(p.get_value(), "y");
}

#[test]
fn decode_accepts_longer_length_headers() {
    // same map, but "value" written with a one-byte length argument
    let mut b = map_header(2);
    b.extend([0x78u8, 5]);
    b.extend_from_slice(b"value");
    b.extend(text_item("v"));
    b.extend(text_item("address"));
    b.extend(text_item("a"));
    let p = HashPayload::new(&b).unwrap();
    assert_eq!(p.get_value(), "v");
    assert_eq!(p.get_address(), "a");
}

#[test]
fn decode_keeps_multibyte_text() {
    let b = payload_both("h\u{e9}llo", "caf\u{e9}");
    let p = HashPayload::new(&b).unwrap();
    assert_eq!(p.get_value(), "h\u{e9}llo");
    assert_eq!(p.get_address(), "caf\u{e9}");
}

#[test]
fn decode_missing_value_is_validation_fault() {
    let mut b = map_header(1);
    b.extend(text_item("address"));
    b.extend(text_item("a1"));
    match HashPayload::new(&b) {
        Err(ApplyError::InvalidTransaction(m)) => assert_eq!(m, "Value must be a string"),
        other => panic!("expected a validation fault, got {:?}", other.is_ok()),
    }
}

#[test]
fn decode_numeric_value_is_validation_fault() {
    // {"value": 5, "address": "a1"}
    let mut b = map_header(2);
    b.extend(text_item("value"));
    b.push(0x05);
    b.extend(text_item("address"));
    b.extend(text_item("a1"));
    match HashPayload::new(&b) {
        Err(ApplyError::InvalidTransaction(m)) => assert_eq!(m, "Value must be a string"),
        other => panic!("expected a validation fault, got {:?}", other.is_ok()),
    }
}

#[test]
fn decode_missing_address_is_validation_fault() {
    let mut b = map_header(1);
    b.extend(text_item("value"));
    b.extend(text_item("hello"));
    match HashPayload::new(&b) {
        Err(ApplyError::InvalidTransaction(m)) => assert_eq!(m, "Address must be a string"),
        other => panic!("expected a validation fault, got {:?}", other.is_ok()),
    }
}

#[test]
fn decode_numeric_address_is_validation_fault() {
    let mut b = map_header(2);
    b.extend(text_item("value"));
    b.extend(text_item("hello"));
    b.extend(text_item("address"));
    b.push(0x05);
    match HashPayload::new(&b) {
        Err(ApplyError::InvalidTransaction(m)) => assert_eq!(m, "Address must be a string"),
        other => panic!("expected a validation fault, got {:?}", other.is_ok()),
    }
}

#[test]
fn decode_non_map_is_validation_fault() {
    // a well-formed item that is not a map has no "value" entry
    let b = vec![0x05u8];
    match HashPayload::new(&b) {
        Err(ApplyError::InvalidTransaction(m)) => assert_eq!(m, "Value must be a string"),
        other => panic!("expected a validation fault, got {:?}", other.is_ok()),
    }
}

#[test]
fn decode_truncated_stream_is_internal_fault() {
    let b = vec![0xa2u8];
    assert!(matches!(HashPayload::new(&b), Err(ApplyError::InternalError(_))));
}

#[test]
fn decode_empty_stream_is_internal_fault() {
    let b: Vec<u8> = Vec::new();
    assert!(matches!(HashPayload::new(&b), Err(ApplyError::InternalError(_))));
}

#[test]
fn decode_indefinite_length_is_internal_fault() {
    // an indefinite-length map is not part of the canonical format
    let mut b = vec![0xbfu8];
    b.extend(text_item("value"));
    b.extend(text_item("v"));
    b.push(0xff);
    assert!(matches!(HashPayload::new(&b), Err(ApplyError::InternalError(_))));
}

#[test]
fn decode_invalid_text_encoding_is_internal_fault() {
    // "value" holds a text item whose payload is not valid UTF-8
    let mut b = map_header(2);
    b.extend(text_item("value"));
    b.extend([0x62u8, 0xff, 0xfe]);
    b.extend(text_item("address"));
    b.extend(text_item("a"));
    assert!(matches!(HashPayload::new(&b), Err(ApplyError::InternalError(_))));
}

#[test]
fn prefix_is_six_lowercase_hex_chars_and_deterministic() {
    let p1 = prefix();
    let p2 = prefix();
    assert_eq!(p1.len(), 6);
    assert!(p1.chars().all(|c| c.is_ascii_hexdigit() && !c.is_ascii_uppercase()));
    assert_eq!(p1, p2);
    // the first six hex characters of the 512-bit hash of "restroom"
    assert_eq!(p1, "c274b5");
}

#[test]
fn handler_identity_surface() {
    let h = StateTransactionHandler::new();
    assert_eq!(h.family_name(), "restroom");
    assert_eq!(h.family_versions(), vec!["1.0".to_string()]);
    assert_eq!(h.namespaces(), vec![prefix()]);
}

#[test]
fn field_map_keeps_entries_sorted_by_key_bytes() {
    let mut m = FieldMap::new();
    m.insert("b".to_string(), "2".to_string());
    m.insert("a".to_string(), "1".to_string());
    m.insert("ab".to_string(), "3".to_string());
    let es = m.entries();
    let keys: Vec<&str> = es.iter().map(|e| e.0.as_str()).collect();
    assert_eq!(keys, vec!["a", "ab", "b"]);
}

#[test]
fn field_map_insert_overwrites_equal_key() {
    let mut m = FieldMap::new();
    m.insert("k".to_string(), "old".to_string());
    m.insert("k".to_string(), "new".to_string());
    let es = m.entries();
    assert_eq!(es.len(), 1);
    assert_eq!(es[0].1, "new");
}

#[test]
fn field_map_encoding_is_canonical_across_insertion_orders() {
    let mut m1 = FieldMap::new();
    m1.insert("x".to_string(), "1".to_string());
    m1.insert("y".to_string(), "2".to_string());
    let mut m2 = FieldMap::new();
    m2.insert("y".to_string(), "2".to_string());
    m2.insert("x".to_string(), "1".to_string());
    assert_eq!(m1.encode(), m2.encode());
}

#[test]
fn field_map_encodes_singleton_exactly() {
    let mut m = FieldMap::new();
    m.insert("a1".to_string(), "v1".to_string());
    assert_eq!(m.encode(), vec![0xa1u8, 0x62, b'a', b'1', 0x62, b'v', b'1']);
}

#[test]
fn field_map_encodes_long_text_with_one_byte_length() {
    let long = "0123456789012345678901234"; // 25 bytes
    let mut m = FieldMap::new();
    m.insert("k".to_string(), long.to_string());
    let mut expected = vec![0xa1u8, 0x61, b'k', 0x78, 25];
    expected.extend_from_slice(long.as_bytes());
    assert_eq!(m.encode(), expected);
}

#[test]
fn merge_on_empty_cache_writes_canonical_singleton() {
    let mut store = InMemoryStore::new();
    let mut state = State::new();
    state.set(&mut store, "a1", "v1").unwrap();
    assert_eq!(store.writes.len(), 1);
    assert_eq!(store.writes[0].0, "a1");
    assert_eq!(store.writes[0].1, singleton_encoding("a1", "v1"));
}

#[test]
fn merge_twice_overwrites_cache_and_writes_twice() {
    let mut store = InMemoryStore::new();
    let mut state = State::new();
    state.set(&mut store, "a1", "v1").unwrap();
    state.set(&mut store, "a1", "v2").unwrap();
    let cached = state.cached("a1").expect("the address must be cached");
    let es = cached.entries();
    assert_eq!(es.len(), 1);
    assert_eq!(es[0].0, "a1");
    assert_eq!(es[0].1, "v2");
    assert_eq!(store.writes.len(), 2);
    assert_eq!(store.writes[0].1, singleton_encoding("a1", "v1"));
    assert_eq!(store.writes[1].0, "a1");
    assert_eq!(store.writes[1].1, singleton_encoding("a1", "v2"));
}

#[test]
fn merge_distinct_addresses_keeps_separate_entries() {
    let mut store = InMemoryStore::new();
    let mut state = State::new();
    state.set(&mut store, "a1", "v1").unwrap();
    state.set(&mut store, "a2", "v2").unwrap();
    assert_eq!(store.writes.len(), 2);
    assert_eq!(store.writes[1].0, "a2");
    assert_eq!(store.writes[1].1, singleton_encoding("a2", "v2"));
    assert_eq!(state.cached("a1").unwrap().entries()[0].1, "v1");
    assert_eq!(state.cached("a2").unwrap().entries()[0].1, "v2");
}

#[test]
fn apply_valid_payload_writes_once() {
    let h = StateTransactionHandler::new();
    let mut store = InMemoryStore::new();
    let b = payload_both("hello", "a1");
    h.apply_payload(&b, &mut store).unwrap();
    assert_eq!(store.writes.len(), 1);
    assert_eq!(store.writes[0].0, "a1");
    assert_eq!(store.writes[0].1, singleton_encoding("a1", "hello"));
}

#[test]
fn apply_numeric_value_rejects_without_writing() {
    let h = StateTransactionHandler::new();
    let mut store = InMemoryStore::new();
    let mut b = map_header(2);
    b.extend(text_item("value"));
    b.push(0x05);
    b.extend(text_item("address"));
    b.extend(text_item("a1"));
    match h.apply_payload(&b, &mut store) {
        Err(ApplyError::InvalidTransaction(m)) => assert_eq!(m, "Value must be a string"),
        other => panic!("expected a validation fault, got {:?}", other.is_ok()),
    }
    assert_eq!(store.writes.len(), 0);
}

#[test]
fn apply_malformed_payload_is_internal_without_writing() {
    let h = StateTransactionHandler::new();
    let mut store = InMemoryStore::new();
    let b = vec![0x78u8, 200, 1, 2];
    assert!(matches!(h.apply_payload(&b, &mut store), Err(ApplyError::InternalError(_))));
    assert_eq!(store.writes.len(), 0);
}

#[test]
fn apply_error_message_accessor() {
    let e = ApplyError::InvalidTransaction("bad".to_string());
    assert_eq!(e.message(), "bad");
    let e = ApplyError::InternalError("broken".to_string());
    assert_eq!(e.message(), "broken");
}
