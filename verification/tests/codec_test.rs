use event_store_rs::aggregates::Aggregate;
use event_store_rs::attr::{AttrValue, AttributeRecord};
use event_store_rs::codec::{decode_aggregate, decode_event, encode_aggregate, encode_event};
use event_store_rs::decimal::{parse_u64, u64_to_dec};
use event_store_rs::events::{Event, EventKey};
use event_store_rs::DecodeError;

fn key(p: &str, s: &str) -> EventKey {
    EventKey::new(p.to_string(), s.to_string())
}

#[test]
fn event_round_trips_exactly() {
    let e = Event::new(key("orders", "2024-01-01#17"), "order_placed", vec![9, 8, 7], 1700000000);
    let r = encode_event(&e);
    let d = decode_event(&r).unwrap();
    assert_eq!(d, e);
}

#[test]
fn event_with_empty_payload_round_trips() {
    let e = Event::new(key("p", "s"), "emptied", vec![], 0);
    let d = decode_event(&encode_event(&e)).unwrap();
    assert_eq!(d, e);
    assert_eq!(d.payload.len(), 0);
}

#[test]
fn event_with_every_byte_value_round_trips() {
    let payload: Vec<u8> = (0..=255u8).collect();
    let e = Event::new(key("p", "s"), "blob", payload.clone(), 7);
    let d = decode_event(&encode_event(&e)).unwrap();
    assert_eq!(d.payload, payload);
    assert_eq!(d, e);
}

#[test]
fn event_with_max_timestamp_round_trips() {
    let e = Event::new(key("p", "s"), "late", vec![1], u64::MAX);
    let d = decode_event(&encode_event(&e)).unwrap();
    assert_eq!(d.created_at, u64::MAX);
    assert_eq!(d, e);
}

#[test]
fn aggregate_round_trips_exactly() {
    let e1 = Event::new(key("a", "1"), "one", vec![1], 1);
    let e2 = Event::new(key("a", "2"), "two", vec![2, 2], 2);
    let e3 = Event::new(key("a", "3"), "three", vec![], 3);
    let a = Aggregate {
        id: "agg-1".to_string(),
        events: vec![e1.clone(), e2.clone(), e3.clone()],
        created_at: 11,
        version: 4,
    };
    let d = decode_aggregate(&encode_aggregate(&a)).unwrap();
    assert_eq!(d.id, "agg-1");
    assert_eq!(d.events, vec![e1, e2, e3]);
    assert_eq!(d.created_at, 11);
    assert_eq!(d.version, 4);
}

#[test]
fn aggregate_with_empty_events_round_trips() {
    let a = Aggregate { id: "empty".to_string(), events: vec![], created_at: 5, version: 0 };
    let d = decode_aggregate(&encode_aggregate(&a)).unwrap();
    assert_eq!(d.id, "empty");
    assert_eq!(d.events.len(), 0);
    assert_eq!(d.created_at, 5);
    assert_eq!(d.version, 0);
}

#[test]
fn missing_field_is_rejected() {
    let mut r = AttributeRecord::new();
    r.push_field("pkey", AttrValue::S("p".to_string()));
    r.push_field("skey", AttrValue::S("s".to_string()));
    r.push_field("name", AttrValue::S("n".to_string()));
    // no payload, no created_at
    assert_eq!(decode_event(&r).unwrap_err(), DecodeError::MissingField);
}

#[test]
fn wrong_kind_is_rejected() {
    let mut r = AttributeRecord::new();
    r.push_field("pkey", AttrValue::S("p".to_string()));
    r.push_field("skey", AttrValue::S("s".to_string()));
    r.push_field("name", AttrValue::B(vec![1, 2]));
    r.push_field("payload", AttrValue::B(vec![]));
    r.push_field("created_at", AttrValue::N("1".to_string()));
    assert_eq!(decode_event(&r).unwrap_err(), DecodeError::WrongType);
}

#[test]
fn nonnumeric_created_at_is_rejected() {
    let mut r = AttributeRecord::new();
    r.push_field("pkey", AttrValue::S("p".to_string()));
    r.push_field("skey", AttrValue::S("s".to_string()));
    r.push_field("name", AttrValue::S("n".to_string()));
    r.push_field("payload", AttrValue::B(vec![1]));
    r.push_field("created_at", AttrValue::N("yesterday".to_string()));
    assert_eq!(decode_event(&r).unwrap_err(), DecodeError::NumberParseError);
}

#[test]
fn created_at_of_string_kind_is_rejected() {
    let mut r = AttributeRecord::new();
    r.push_field("pkey", AttrValue::S("p".to_string()));
    r.push_field("skey", AttrValue::S("s".to_string()));
    r.push_field("name", AttrValue::S("n".to_string()));
    r.push_field("payload", AttrValue::B(vec![1]));
    r.push_field("created_at", AttrValue::S("1".to_string()));
    assert_eq!(decode_event(&r).unwrap_err(), DecodeError::WrongType);
}

#[test]
fn out_of_range_created_at_is_rejected() {
    let mut r = AttributeRecord::new();
    r.push_field("pkey", AttrValue::S("p".to_string()));
    r.push_field("skey", AttrValue::S("s".to_string()));
    r.push_field("name", AttrValue::S("n".to_string()));
    r.push_field("payload", AttrValue::B(vec![]));
    // one past u64::MAX
    r.push_field("created_at", AttrValue::N("18446744073709551616".to_string()));
    assert_eq!(decode_event(&r).unwrap_err(), DecodeError::NumberParseError);
}

#[test]
fn malformed_embedded_tuple_fails_whole_aggregate() {
    let mut r = AttributeRecord::new();
    r.push_field("pkey", AttrValue::S("agg".to_string()));
    // a two-element tuple instead of five
    let bad_tuple = AttrValue::L(vec![
        AttrValue::S("p".to_string()),
        AttrValue::S("s".to_string()),
    ]);
    r.push_field("events", AttrValue::L(vec![bad_tuple]));
    r.push_field("created_at", AttrValue::N("1".to_string()));
    r.push_field("version", AttrValue::N("1".to_string()));
    assert_eq!(decode_aggregate(&r).unwrap_err(), DecodeError::WrongType);
}

#[test]
fn decimal_printing_is_canonical() {
    assert_eq!(u64_to_dec(0), "0");
    assert_eq!(u64_to_dec(7), "7");
    assert_eq!(u64_to_dec(1700000000), "1700000000");
    assert_eq!(u64_to_dec(u64::MAX), "18446744073709551615");
}

#[test]
fn decimal_parsing_accepts_digits_only() {
    assert_eq!(parse_u64("0"), Some(0));
    assert_eq!(parse_u64("007"), Some(7));
    assert_eq!(parse_u64("18446744073709551615"), Some(u64::MAX));
    assert_eq!(parse_u64("18446744073709551616"), None);
    assert_eq!(parse_u64(""), None);
    assert_eq!(parse_u64("+1"), None);
    assert_eq!(parse_u64("1e3"), None);
    assert_eq!(parse_u64(" 1"), None);
    assert_eq!(parse_u64("-1"), None);
}
