//! The codec: a lossless, deterministic, bidirectional mapping between
//! domain objects and attribute records. Encoding is total; decoding
//! rejects any record that does not have the expected shape, field by
//! field, with a typed error — never a silently defaulted value.

use crate::aggregates::{Aggregate, AggregateV};
use crate::attr::{record_get, seq_dv, AttrV, AttrValue, AttributeRecord, FieldV};
use crate::decimal::{dec_digits, parse_dec, parse_u64, u64_to_dec};
use crate::events::{events_view, Event, EventKey, EventKeyV, EventV};
use crate::DecodeError;
use vstd::prelude::*;

verus! {

/// The record an event is stored as: its two key components, its name,
/// its payload blob, and its timestamp as a decimal numeric string.
pub open spec fn encode_event_s(e: EventV) -> Seq<FieldV> {
    seq![
        FieldV { name: "pkey"@, value: AttrV::S(e.primary_key.partition_key) },
        FieldV { name: "skey"@, value: AttrV::S(e.primary_key.sort_key) },
        FieldV { name: "name"@, value: AttrV::S(e.name) },
        FieldV { name: "payload"@, value: AttrV::B(e.payload) },
        FieldV { name: "created_at"@, value: AttrV::N(dec_digits(e.created_at as nat)) },
    ]
}

/// What decoding an event record yields: the event, when every required
/// field is present with the right kind and the timestamp parses as an
/// unsigned 64-bit decimal; the first failure otherwise, scanning the
/// fields in the order `pkey`, `skey`, `name`, `payload`, `created_at`.
pub open spec fn decode_event_s(r: Seq<FieldV>) -> Result<EventV, DecodeError> {
    match record_get(r, "pkey"@) {
        Option::None => Err(DecodeError::MissingField),
        Option::Some(pv) => match pv {
            AttrV::S(pk) => match record_get(r, "skey"@) {
                Option::None => Err(DecodeError::MissingField),
                Option::Some(sv) => match sv {
                    AttrV::S(sk) => match record_get(r, "name"@) {
                        Option::None => Err(DecodeError::MissingField),
                        Option::Some(nv) => match nv {
                            AttrV::S(name) => match record_get(r, "payload"@) {
                                Option::None => Err(DecodeError::MissingField),
                                Option::Some(bv) => match bv {
                                    AttrV::B(payload) => match record_get(r, "created_at"@) {
                                        Option::None => Err(DecodeError::MissingField),
                                        Option::Some(cv) => match cv {
                                            AttrV::N(cs) => match parse_dec(cs) {
                                                Option::None => Err(
                                                    DecodeError::NumberParseError,
                                                ),
                                                Option::Some(created_at) => Ok(
                                                    EventV {
                                                        primary_key: EventKeyV {
                                                            partition_key: pk,
                                                            sort_key: sk,
                                                        },
                                                        name,
                                                        payload,
                                                        created_at,
                                                    },
                                                ),
                                            },
                                            _ => Err(DecodeError::WrongType),
                                        },
                                    },
                                    _ => Err(DecodeError::WrongType),
                                },
                            },
                            _ => Err(DecodeError::WrongType),
                        },
                    },
                    _ => Err(DecodeError::WrongType),
                },
            },
            _ => Err(DecodeError::WrongType),
        },
    }
}

/// Decoding inverts encoding: for every event, the record it is stored
/// as decodes back to exactly that event — names, payload bytes and
/// timestamp included, for empty payloads as well as full ones.
pub proof fn lemma_event_round_trip(e: EventV)
    ensures
        decode_event_s(encode_event_s(e)) == Ok::<EventV, DecodeError>(e),
{
    reveal_with_fuel(record_get, 6);
    reveal_strlit("pkey");
    reveal_strlit("skey");
    reveal_strlit("name");
    reveal_strlit("payload");
    reveal_strlit("created_at");
    assert("pkey"@.len() == 4 && "skey"@.len() == 4 && "name"@.len() == 4 && "payload"@.len() == 7
        && "created_at"@.len() == 10);
    assert("pkey"@[0] == 'p' && "skey"@[0] == 's' && "name"@[0] == 'n');
    let r = encode_event_s(e);
    let f0 = FieldV { name: "pkey"@, value: AttrV::S(e.primary_key.partition_key) };
    let f1 = FieldV { name: "skey"@, value: AttrV::S(e.primary_key.sort_key) };
    let f2 = FieldV { name: "name"@, value: AttrV::S(e.name) };
    let f3 = FieldV { name: "payload"@, value: AttrV::B(e.payload) };
    let f4 = FieldV { name: "created_at"@, value: AttrV::N(dec_digits(e.created_at as nat)) };
    assert(r.drop_first() =~= seq![f1, f2, f3, f4]);
    assert(seq![f1, f2, f3, f4].drop_first() =~= seq![f2, f3, f4]);
    assert(seq![f2, f3, f4].drop_first() =~= seq![f3, f4]);
    assert(seq![f3, f4].drop_first() =~= seq![f4]);
    assert(record_get(r, "pkey"@) == Some(f0.value));
    assert(record_get(r, "skey"@) == Some(f1.value));
    assert(record_get(r, "name"@) == Some(f2.value));
    assert(record_get(r, "payload"@) == Some(f3.value));
    assert(record_get(r, "created_at"@) == Some(f4.value));
    crate::decimal::lemma_parse_dec_round_trip(e.created_at);
}

/// A malformed timestamp is rejected, never defaulted: when a record
/// carries the other event fields with their right kinds but its
/// `created_at` holds a string that does not parse as an unsigned 64-bit
/// decimal, the decode fails with the number-parse error — it does not
/// produce an event with a made-up timestamp.
pub proof fn lemma_nonnumeric_created_at_rejected(r: Seq<FieldV>)
    requires
        record_get(r, "pkey"@) matches Some(AttrV::S(_)),
        record_get(r, "skey"@) matches Some(AttrV::S(_)),
        record_get(r, "name"@) matches Some(AttrV::S(_)),
        record_get(r, "payload"@) matches Some(AttrV::B(_)),
        record_get(r, "created_at"@) matches Some(AttrV::N(cs)) && parse_dec(cs) is None,
    ensures
        decode_event_s(r) == Err::<EventV, DecodeError>(DecodeError::NumberParseError),
{
}

/// Encodes an event as the record it is stored under.
pub fn encode_event(event: &Event) -> (r: AttributeRecord)
    ensures
        r@ == encode_event_s(event@),
{
    let mut r = AttributeRecord::new();
    r.push_field("pkey", AttrValue::S(event.primary_key.partition_key.clone()));
    r.push_field("skey", AttrValue::S(event.primary_key.sort_key.clone()));
    r.push_field("name", AttrValue::S(event.name.clone()));
    let payload = event.payload.clone();
    proof {
        assert(payload@ =~= event.payload@);
    }
    r.push_field("payload", AttrValue::B(payload));
    r.push_field("created_at", AttrValue::N(u64_to_dec(event.created_at)));
    proof {
        assert(r@ =~= encode_event_s(event@));
    }
    r
}

/// Decodes an event record; fails with a typed error when a required
/// field is absent, of the wrong kind, or the timestamp does not parse.
pub fn decode_event(r: &AttributeRecord) -> (res: Result<Event, DecodeError>)
    ensures
        match decode_event_s(r@) {
            Ok(ev) => res matches Ok(e) && e@ == ev,
            Err(er) => res matches Err(e2) && e2 == er,
        },
{
    let pk = match r.get("pkey") {
        Option::None => {
            return Err(DecodeError::MissingField);
        },
        Option::Some(AttrValue::S(s)) => s.clone(),
        Option::Some(_) => {
            return Err(DecodeError::WrongType);
        },
    };
    let sk = match r.get("skey") {
        Option::None => {
            return Err(DecodeError::MissingField);
        },
        Option::Some(AttrValue::S(s)) => s.clone(),
        Option::Some(_) => {
            return Err(DecodeError::WrongType);
        },
    };
    let name = match r.get("name") {
        Option::None => {
            return Err(DecodeError::MissingField);
        },
        Option::Some(AttrValue::S(s)) => s.clone(),
        Option::Some(_) => {
            return Err(DecodeError::WrongType);
        },
    };
    let payload = match r.get("payload") {
        Option::None => {
            return Err(DecodeError::MissingField);
        },
        Option::Some(AttrValue::B(b)) => {
            let p = b.clone();
            proof {
                assert(p@ =~= b@);
            }
            p
        },
        Option::Some(_) => {
            return Err(DecodeError::WrongType);
        },
    };
    let created_at = match r.get("created_at") {
        Option::None => {
            return Err(DecodeError::MissingField);
        },
        Option::Some(AttrValue::N(n)) => match parse_u64(n.as_str()) {
            Option::None => {
                return Err(DecodeError::NumberParseError);
            },
            Option::Some(v) => v,
        },
        Option::Some(_) => {
            return Err(DecodeError::WrongType);
        },
    };
    Ok(Event { primary_key: EventKey { partition_key: pk, sort_key: sk }, name, payload, created_at })
}

/// The fixed positional five-tuple an event is embedded as inside an
/// aggregate record: partition key, sort key, name, payload, timestamp,
/// in that order. The order is the wire contract.
pub open spec fn event_tuple_s(e: EventV) -> AttrV {
    AttrV::L(
        seq![
            AttrV::S(e.primary_key.partition_key),
            AttrV::S(e.primary_key.sort_key),
            AttrV::S(e.name),
            AttrV::B(e.payload),
            AttrV::N(dec_digits(e.created_at as nat)),
        ],
    )
}

/// The embedded event list: one five-tuple per event, in list order.
pub open spec fn encode_events_s(evs: Seq<EventV>) -> Seq<AttrV> {
    Seq::new(evs.len(), |i: int| event_tuple_s(evs[i]))
}

/// The record an aggregate is stored as: its identity, its embedded
/// event list, and its metadata as decimal numeric strings.
pub open spec fn encode_aggregate_s(a: AggregateV) -> Seq<FieldV> {
    seq![
        FieldV { name: "pkey"@, value: AttrV::S(a.id) },
        FieldV { name: "events"@, value: AttrV::L(encode_events_s(a.events)) },
        FieldV { name: "created_at"@, value: AttrV::N(dec_digits(a.created_at as nat)) },
        FieldV { name: "version"@, value: AttrV::N(dec_digits(a.version as nat)) },
    ]
}

/// What decoding one embedded five-tuple yields: the event, when the
/// element is a list of exactly five values of the right kinds and the
/// timestamp parses; a typed error otherwise.
pub open spec fn decode_tuple_s(v: AttrV) -> Result<EventV, DecodeError> {
    match v {
        AttrV::L(items) => {
            if items.len() != 5 {
                Err(DecodeError::WrongType)
            } else {
                match items[0] {
                    AttrV::S(pk) => match items[1] {
                        AttrV::S(sk) => match items[2] {
                            AttrV::S(name) => match items[3] {
                                AttrV::B(payload) => match items[4] {
                                    AttrV::N(cs) => match parse_dec(cs) {
                                        Option::None => Err(DecodeError::NumberParseError),
                                        Option::Some(created_at) => Ok(
                                            EventV {
                                                primary_key: EventKeyV {
                                                    partition_key: pk,
                                                    sort_key: sk,
                                                },
                                                name,
                                                payload,
                                                created_at,
                                            },
                                        ),
                                    },
                                    _ => Err(DecodeError::WrongType),
                                },
                                _ => Err(DecodeError::WrongType),
                            },
                            _ => Err(DecodeError::WrongType),
                        },
                        _ => Err(DecodeError::WrongType),
                    },
                    _ => Err(DecodeError::WrongType),
                }
            }
        },
        _ => Err(DecodeError::WrongType),
    }
}

/// What decoding an embedded event list yields: every tuple decoded, in
/// order, or the error of the first malformed tuple — a malformed
/// element fails the whole list, with no partial recovery.
pub open spec fn decode_events_s(items: Seq<AttrV>) -> Result<Seq<EventV>, DecodeError>
    decreases items.len(),
{
    if items.len() == 0 {
        Ok(Seq::empty())
    } else {
        match decode_events_s(items.drop_last()) {
            Err(er) => Err(er),
            Ok(evs) => match decode_tuple_s(items.last()) {
                Err(er) => Err(er),
                Ok(ev) => Ok(evs.push(ev)),
            },
        }
    }
}

/// What decoding an aggregate record yields, scanning the fields in the
/// order `pkey`, `events`, `created_at`, `version`.
pub open spec fn decode_aggregate_s(r: Seq<FieldV>) -> Result<AggregateV, DecodeError> {
    match record_get(r, "pkey"@) {
        Option::None => Err(DecodeError::MissingField),
        Option::Some(AttrV::S(id)) => match record_get(r, "events"@) {
            Option::None => Err(DecodeError::MissingField),
            Option::Some(AttrV::L(items)) => match decode_events_s(items) {
                Err(er) => Err(er),
                Ok(events) => match record_get(r, "created_at"@) {
                    Option::None => Err(DecodeError::MissingField),
                    Option::Some(AttrV::N(cs)) => match parse_dec(cs) {
                        Option::None => Err(DecodeError::NumberParseError),
                        Option::Some(created_at) => match record_get(r, "version"@) {
                            Option::None => Err(DecodeError::MissingField),
                            Option::Some(AttrV::N(vs)) => match parse_dec(vs) {
                                Option::None => Err(DecodeError::NumberParseError),
                                Option::Some(version) => Ok(
                                    AggregateV { id, events, created_at, version },
                                ),
                            },
                            Option::Some(_) => Err(DecodeError::WrongType),
                        },
                    },
                    Option::Some(_) => Err(DecodeError::WrongType),
                },
            },
            Option::Some(_) => Err(DecodeError::WrongType),
        },
        Option::Some(_) => Err(DecodeError::WrongType),
    }
}

/// Decoding inverts encoding on each embedded five-tuple.
pub proof fn lemma_tuple_round_trip(e: EventV)
    ensures
        decode_tuple_s(event_tuple_s(e)) == Ok::<EventV, DecodeError>(e),
{
    crate::decimal::lemma_parse_dec_round_trip(e.created_at);
}

/// Decoding inverts encoding on a whole embedded event list, preserving
/// its length and order — for the empty list as well.
pub proof fn lemma_events_round_trip(evs: Seq<EventV>)
    ensures
        decode_events_s(encode_events_s(evs)) == Ok::<Seq<EventV>, DecodeError>(evs),
    decreases evs.len(),
{
    let enc = encode_events_s(evs);
    if evs.len() == 0 {
        assert(enc =~= Seq::<AttrV>::empty());
        assert(evs =~= Seq::<EventV>::empty());
    } else {
        lemma_events_round_trip(evs.drop_last());
        assert(enc.drop_last() =~= encode_events_s(evs.drop_last()));
        assert(enc.last() == event_tuple_s(evs.last()));
        lemma_tuple_round_trip(evs.last());
        assert(evs.drop_last().push(evs.last()) =~= evs);
    }
}

/// Decoding inverts encoding: for every aggregate, the record it is
/// stored as decodes back to exactly that aggregate, with its event
/// sequence in the original order.
pub proof fn lemma_aggregate_round_trip(a: AggregateV)
    ensures
        decode_aggregate_s(encode_aggregate_s(a)) == Ok::<AggregateV, DecodeError>(a),
{
    reveal_with_fuel(record_get, 5);
    reveal_strlit("pkey");
    reveal_strlit("events");
    reveal_strlit("created_at");
    reveal_strlit("version");
    assert("pkey"@.len() == 4 && "events"@.len() == 6 && "created_at"@.len() == 10
        && "version"@.len() == 7);
    let r = encode_aggregate_s(a);
    let f0 = FieldV { name: "pkey"@, value: AttrV::S(a.id) };
    let f1 = FieldV { name: "events"@, value: AttrV::L(encode_events_s(a.events)) };
    let f2 = FieldV { name: "created_at"@, value: AttrV::N(dec_digits(a.created_at as nat)) };
    let f3 = FieldV { name: "version"@, value: AttrV::N(dec_digits(a.version as nat)) };
    assert(r.drop_first() =~= seq![f1, f2, f3]);
    assert(seq![f1, f2, f3].drop_first() =~= seq![f2, f3]);
    assert(seq![f2, f3].drop_first() =~= seq![f3]);
    assert(record_get(r, "pkey"@) == Some(f0.value));
    assert(record_get(r, "events"@) == Some(f1.value));
    assert(record_get(r, "created_at"@) == Some(f2.value));
    assert(record_get(r, "version"@) == Some(f3.value));
    lemma_events_round_trip(a.events);
    crate::decimal::lemma_parse_dec_round_trip(a.created_at);
    crate::decimal::lemma_parse_dec_round_trip(a.version);
}

/// Encodes an aggregate as the record it is stored under.
#[verifier::loop_isolation(false)]
pub fn encode_aggregate(aggregate: &Aggregate) -> (r: AttributeRecord)
    ensures
        r@ == encode_aggregate_s(aggregate@),
{
    let n: usize = aggregate.events.len();
    let mut items: Vec<AttrValue> = Vec::new();
    let mut i: usize = 0;
    while i < n
        invariant
            0 <= i <= n,
            items@.len() == i,
            forall|j: int| 0 <= j < i ==> (#[trigger] items@[j].dv()) == event_tuple_s(
                aggregate@.events[j],
            ),
        decreases n - i,
    {
        let e = &aggregate.events[i];
        let payload = e.payload.clone();
        proof {
            assert(payload@ =~= e.payload@);
        }
        let mut tuple: Vec<AttrValue> = Vec::new();
        tuple.push(AttrValue::S(e.primary_key.partition_key.clone()));
        tuple.push(AttrValue::S(e.primary_key.sort_key.clone()));
        tuple.push(AttrValue::S(e.name.clone()));
        tuple.push(AttrValue::B(payload));
        tuple.push(AttrValue::N(u64_to_dec(e.created_at)));
        let ghost tseq = tuple@;
        let tv = AttrValue::L(tuple);
        proof {
            assert(tv.dv() == AttrV::L(seq_dv(tseq)));
            assert(seq_dv(tseq) =~= seq![
                AttrV::S(e.primary_key.partition_key@),
                AttrV::S(e.primary_key.sort_key@),
                AttrV::S(e.name@),
                AttrV::B(e.payload@),
                AttrV::N(dec_digits(e.created_at as nat)),
            ]);
            assert(tv.dv() == event_tuple_s(aggregate@.events[i as int]));
        }
        items.push(tv);
        i = i + 1;
    }
    let ghost iseq = items@;
    let ev_attr = AttrValue::L(items);
    proof {
        assert(ev_attr.dv() == AttrV::L(seq_dv(iseq)));
        assert(iseq.len() == n);
        assert(encode_events_s(aggregate@.events).len() == n as int);
        assert(forall|j: int| 0 <= j < n ==> (#[trigger] seq_dv(iseq)[j]) == iseq[j].dv());
        assert(seq_dv(iseq) =~= encode_events_s(aggregate@.events));
    }
    let mut r = AttributeRecord::new();
    r.push_field("pkey", AttrValue::S(aggregate.id.clone()));
    r.push_field("events", ev_attr);
    r.push_field("created_at", AttrValue::N(u64_to_dec(aggregate.created_at)));
    r.push_field("version", AttrValue::N(u64_to_dec(aggregate.version)));
    proof {
        assert(r@ =~= encode_aggregate_s(aggregate@));
    }
    r
}

/// Decodes one embedded five-tuple back into an event.
fn decode_tuple(v: &AttrValue) -> (res: Result<Event, DecodeError>)
    ensures
        match decode_tuple_s(v.dv()) {
            Ok(ev) => res matches Ok(e) && e@ == ev,
            Err(er) => res matches Err(e2) && e2 == er,
        },
{
    match v {
        AttrValue::L(items) => {
            proof {
                assert(v.dv() == AttrV::L(seq_dv(items@)));
            }
            if items.len() != 5 {
                return Err(DecodeError::WrongType);
            }
            let pk = match &items[0] {
                AttrValue::S(s) => s.clone(),
                _ => {
                    return Err(DecodeError::WrongType);
                },
            };
            let sk = match &items[1] {
                AttrValue::S(s) => s.clone(),
                _ => {
                    return Err(DecodeError::WrongType);
                },
            };
            let name = match &items[2] {
                AttrValue::S(s) => s.clone(),
                _ => {
                    return Err(DecodeError::WrongType);
                },
            };
            let payload = match &items[3] {
                AttrValue::B(b) => {
                    let p = b.clone();
                    proof {
                        assert(p@ =~= b@);
                    }
                    p
                },
                _ => {
                    return Err(DecodeError::WrongType);
                },
            };
            let created_at = match &items[4] {
                AttrValue::N(ns) => match parse_u64(ns.as_str()) {
                    Option::None => {
                        return Err(DecodeError::NumberParseError);
                    },
                    Option::Some(ts) => ts,
                },
                _ => {
                    return Err(DecodeError::WrongType);
                },
            };
            Ok(
                Event {
                    primary_key: EventKey { partition_key: pk, sort_key: sk },
                    name,
                    payload,
                    created_at,
                },
            )
        },
        _ => Err(DecodeError::WrongType),
    }
}

/// When the tuples before index `i` decode and the tuple at `i` fails,
/// the whole list fails with exactly that tuple's error.
proof fn lemma_decode_events_first_err(items: Seq<AttrV>, i: int, er: DecodeError)
    requires
        0 <= i < items.len(),
        decode_events_s(items.take(i)) is Ok,
        decode_tuple_s(items[i]) == Err::<EventV, DecodeError>(er),
    ensures
        decode_events_s(items) == Err::<Seq<EventV>, DecodeError>(er),
    decreases items.len(),
{
    if i == items.len() - 1 {
        assert(items.drop_last() =~= items.take(i));
        assert(items.last() == items[i]);
    } else {
        assert(items.drop_last().take(i) =~= items.take(i));
        lemma_decode_events_first_err(items.drop_last(), i, er);
    }
}

/// Decodes an aggregate record; a malformed embedded tuple fails the
/// whole decode with a typed error — no partially populated aggregate
/// is ever produced.
#[verifier::loop_isolation(false)]
pub fn decode_aggregate(r: &AttributeRecord) -> (res: Result<Aggregate, DecodeError>)
    ensures
        match decode_aggregate_s(r@) {
            Ok(av) => res matches Ok(a) && a@ == av,
            Err(er) => res matches Err(e2) && e2 == er,
        },
{
    let id = match r.get("pkey") {
        Option::None => {
            return Err(DecodeError::MissingField);
        },
        Option::Some(AttrValue::S(s)) => s.clone(),
        Option::Some(_) => {
            return Err(DecodeError::WrongType);
        },
    };
    let events = match r.get("events") {
        Option::None => {
            return Err(DecodeError::MissingField);
        },
        Option::Some(AttrValue::L(items)) => {
            let ghost sq = seq_dv(items@);
            proof {
                assert(record_get(r@, "events"@) == Some(AttrV::L(sq)));
            }
            let n: usize = items.len();
            let mut evs: Vec<Event> = Vec::new();
            let mut i: usize = 0;
            proof {
                assert(sq.take(0) =~= Seq::<AttrV>::empty());
                assert(events_view(evs@) =~= Seq::<EventV>::empty());
            }
            while i < n
                invariant
                    0 <= i <= n,
                    evs@.len() == i,
                    decode_events_s(sq.take(i as int)) == Ok::<Seq<EventV>, DecodeError>(
                        events_view(evs@),
                    ),
                decreases n - i,
            {
                proof {
                    assert(sq.take(i + 1).drop_last() =~= sq.take(i as int));
                    assert(sq.take(i + 1).last() == sq[i as int]);
                }
                match decode_tuple(&items[i]) {
                    Err(er) => {
                        proof {
                            lemma_decode_events_first_err(sq, i as int, er);
                        }
                        return Err(er);
                    },
                    Ok(e) => {
                        let ghost prev = evs@;
                        evs.push(e);
                        proof {
                            assert(events_view(prev.push(e)) =~= events_view(prev).push(e@));
                        }
                    },
                }
                i = i + 1;
            }
            proof {
                assert(sq.take(n as int) =~= sq);
            }
            evs
        },
        Option::Some(_) => {
            return Err(DecodeError::WrongType);
        },
    };
    let created_at = match r.get("created_at") {
        Option::None => {
            return Err(DecodeError::MissingField);
        },
        Option::Some(AttrValue::N(ns)) => match parse_u64(ns.as_str()) {
            Option::None => {
                return Err(DecodeError::NumberParseError);
            },
            Option::Some(v) => v,
        },
        Option::Some(_) => {
            return Err(DecodeError::WrongType);
        },
    };
    let version = match r.get("version") {
        Option::None => {
            return Err(DecodeError::MissingField);
        },
        Option::Some(AttrValue::N(ns)) => match parse_u64(ns.as_str()) {
            Option::None => {
                return Err(DecodeError::NumberParseError);
            },
            Option::Some(v) => v,
        },
        Option::Some(_) => {
            return Err(DecodeError::WrongType);
        },
    };
    Ok(Aggregate { id, events, created_at, version })
}

} // verus!
