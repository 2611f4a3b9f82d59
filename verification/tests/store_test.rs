use event_store_rs::aggregates::{Aggregate, AggregateStore};
use event_store_rs::events::{Event, EventKey, EventStore};
use event_store_rs::StoreError;

fn key(p: &str, s: &str) -> EventKey {
    EventKey::new(p.to_string(), s.to_string())
}

#[test]
fn write_then_read_returns_the_event() {
    let mut store = EventStore::new();
    let event = Event::new(key("1", "1"), "test", vec![1u8, 2, 3], 1);
    store.write(event.clone()).unwrap();
    let actual = store.read(event.primary_key()).unwrap();
    assert_eq!(actual, event);
}

#[test]
fn missing_key_reads_not_found() {
    let mut store = EventStore::new();
    assert_eq!(store.read(&key("a", "b")).unwrap_err(), StoreError::NotFound);
    store.write(Event::new(key("a", "b"), "present", vec![], 1)).unwrap();
    assert_eq!(store.read(&key("a", "c")).unwrap_err(), StoreError::NotFound);
    assert_eq!(store.read(&key("x", "b")).unwrap_err(), StoreError::NotFound);
}

#[test]
fn overwrite_returns_last_written() {
    let mut store = EventStore::new();
    let k = key("k", "k");
    store.write(Event::new(k.clone(), "a", vec![1], 1)).unwrap();
    store.write(Event::new(k.clone(), "b", vec![2], 2)).unwrap();
    let got = store.read(&k).unwrap();
    assert_eq!(got.name, "b");
    assert_eq!(got.payload, vec![2]);
    assert_eq!(got.created_at, 2);
}

#[test]
fn writing_twice_is_idempotent() {
    let mut store = EventStore::new();
    let event = Event::new(key("i", "i"), "same", vec![3, 3], 3);
    store.write(event.clone()).unwrap();
    store.write(event.clone()).unwrap();
    assert_eq!(store.read(event.primary_key()).unwrap(), event);
}

#[test]
fn events_of_distinct_keys_coexist() {
    let mut store = EventStore::new();
    let e1 = Event::new(key("p", "1"), "first", vec![1], 1);
    let e2 = Event::new(key("p", "2"), "second", vec![2], 2);
    store.write(e1.clone()).unwrap();
    store.write(e2.clone()).unwrap();
    assert_eq!(store.read(e1.primary_key()).unwrap(), e1);
    assert_eq!(store.read(e2.primary_key()).unwrap(), e2);
}

#[test]
fn aggregate_event_order_is_preserved() {
    let e1 = Event::new(key("a", "1"), "one", vec![1], 1);
    let e2 = Event::new(key("a", "2"), "two", vec![2], 2);
    let e3 = Event::new(key("a", "3"), "three", vec![3], 3);
    let mut store = AggregateStore::new();
    let a = Aggregate {
        id: "history".to_string(),
        events: vec![e1.clone(), e2.clone(), e3.clone()],
        created_at: 10,
        version: 1,
    };
    store.write(a).unwrap();
    let got = store.read(&"history".to_string()).unwrap();
    assert_eq!(got.events, vec![e1, e2, e3]);
    assert_eq!(got.id, "history");
    assert_eq!(got.created_at, 10);
    assert_eq!(got.version, 1);
}

#[test]
fn aggregate_missing_id_reads_not_found() {
    let store = AggregateStore::new();
    assert_eq!(store.read(&"nobody".to_string()).unwrap_err(), StoreError::NotFound);
}

#[test]
fn aggregate_overwrite_returns_last_written() {
    let mut store = AggregateStore::new();
    let id = "agg".to_string();
    let a1 = Aggregate { id: id.clone(), events: vec![], created_at: 1, version: 1 };
    let e = Event::new(key("agg", "1"), "grew", vec![], 2);
    let a2 = Aggregate { id: id.clone(), events: vec![e.clone()], created_at: 1, version: 2 };
    store.write(a1).unwrap();
    store.write(a2).unwrap();
    let got = store.read(&id).unwrap();
    assert_eq!(got.version, 2);
    assert_eq!(got.events, vec![e]);
}

#[test]
fn empty_aggregate_round_trips_through_store() {
    let mut store = AggregateStore::new();
    let a = Aggregate { id: "bare".to_string(), events: vec![], created_at: 0, version: 0 };
    store.write(a).unwrap();
    let got = store.read(&"bare".to_string()).unwrap();
    assert_eq!(got.events.len(), 0);
    assert_eq!(got.created_at, 0);
    assert_eq!(got.version, 0);
}
