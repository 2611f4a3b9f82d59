//! Domain events and their composite identity, and the event store:
//! point writes and point reads of single events, keyed by the composite
//! identity, with last-writer-wins overwrite. An event is an immutable
//! fact: once written it is read back verbatim, byte for byte.

use crate::attr::{AttributeRecord, FieldV};
use crate::codec::{decode_event, decode_event_s, encode_event, encode_event_s};
use crate::{DecodeError, StoreError};
use vstd::prelude::*;

verus! {

/// The partition component of an event's composite identity.
pub type PK = String;

/// The sort component of an event's composite identity.
pub type SK = String;

/// The composite identity of an event within the store; both components
/// are opaque strings chosen by the caller, and equality is structural.
#[derive(Debug)]
pub struct EventKey {
    pub partition_key: PK,
    pub sort_key: SK,
}

/// The model of an [`EventKey`]: the two components as character
/// sequences.
pub struct EventKeyV {
    pub partition_key: Seq<char>,
    pub sort_key: Seq<char>,
}

impl View for EventKey {
    type V = EventKeyV;

    open spec fn view(&self) -> EventKeyV {
        EventKeyV { partition_key: self.partition_key@, sort_key: self.sort_key@ }
    }
}

impl EventKey {
    /// A key made of the given partition and sort components.
    pub fn new(partition_key: PK, sort_key: SK) -> (r: Self)
        ensures
            r@ == (EventKeyV { partition_key: partition_key@, sort_key: sort_key@ }),
    {
        Self { partition_key, sort_key }
    }
}

impl Clone for EventKey {
    fn clone(&self) -> (r: Self)
        ensures
            r@ == self@,
    {
        EventKey { partition_key: self.partition_key.clone(), sort_key: self.sort_key.clone() }
    }
}

impl PartialEq for EventKey {
    fn eq(&self, other: &Self) -> (r: bool) {
        self.partition_key == other.partition_key && self.sort_key == other.sort_key
    }
}

impl Eq for EventKey {

}

impl vstd::std_specs::cmp::PartialEqSpecImpl for EventKey {
    open spec fn obeys_eq_spec() -> bool {
        true
    }

    open spec fn eq_spec(&self, other: &Self) -> bool {
        self@ == other@
    }
}

/// An immutable domain event: a composite identity, a name, an opaque
/// byte payload, and a caller-supplied timestamp.
#[derive(Debug)]
pub struct Event {
    pub primary_key: EventKey,
    pub name: String,
    pub payload: Vec<u8>,
    pub created_at: u64,
}

/// The model of an [`Event`].
pub struct EventV {
    pub primary_key: EventKeyV,
    pub name: Seq<char>,
    pub payload: Seq<u8>,
    pub created_at: u64,
}

impl View for Event {
    type V = EventV;

    open spec fn view(&self) -> EventV {
        EventV {
            primary_key: self.primary_key@,
            name: self.name@,
            payload: self.payload@,
            created_at: self.created_at,
        }
    }
}

impl Event {
    /// An event with the given identity, name, payload and timestamp.
    pub fn new(primary_key: EventKey, name: &str, payload: Vec<u8>, created_at: u64) -> (r: Self)
        ensures
            r@ == (EventV {
                primary_key: primary_key@,
                name: name@,
                payload: payload@,
                created_at,
            }),
    {
        Self { primary_key, name: name.to_owned(), payload, created_at }
    }

    /// The composite identity of this event.
    pub fn primary_key(&self) -> (r: &EventKey)
        ensures
            r@ == self@.primary_key,
    {
        &self.primary_key
    }
}

/// The models of a sequence of events, element by element, in order.
pub open spec fn events_view(evs: Seq<Event>) -> Seq<EventV> {
    Seq::new(evs.len(), |i: int| evs[i]@)
}

impl Clone for Event {
    fn clone(&self) -> (r: Self)
        ensures
            r@ == self@,
    {
        let payload = self.payload.clone();
        proof {
            assert(payload@ =~= self.payload@);
        }
        Event {
            primary_key: self.primary_key.clone(),
            name: self.name.clone(),
            payload,
            created_at: self.created_at,
        }
    }
}

impl PartialEq for Event {
    fn eq(&self, other: &Self) -> (r: bool) {
        let keys_eq = self.primary_key == other.primary_key;
        let names_eq = self.name == other.name;
        let payloads_eq = self.payload == other.payload;
        let r = keys_eq && names_eq && payloads_eq && self.created_at == other.created_at;
        proof {
            if payloads_eq {
                assert(self.payload@ =~= other.payload@);
            } else {
                if self.payload@ == other.payload@ {
                    assert(forall|i: int|
                        0 <= i < self.payload@.len() ==> self.payload@[i] == other.payload@[i]);
                    assert(false);
                }
            }
        }
        r
    }
}

impl Eq for Event {

}

impl vstd::std_specs::cmp::PartialEqSpecImpl for Event {
    open spec fn obeys_eq_spec() -> bool {
        true
    }

    open spec fn eq_spec(&self, other: &Self) -> bool {
        self@ == other@
    }
}

/// One stored row of the event table: the key attributes and the record
/// written under them.
struct EventRow {
    key: EventKey,
    item: AttributeRecord,
}

/// The model of one stored row.
pub struct EventRowV {
    pub key: EventKeyV,
    pub item: Seq<FieldV>,
}

/// The record stored under `key`, or `None` when no row carries it.
pub open spec fn store_lookup(rows: Seq<EventRowV>, key: EventKeyV) -> Option<Seq<FieldV>>
    decreases rows.len(),
{
    if rows.len() == 0 {
        None
    } else if rows[0].key == key {
        Some(rows[0].item)
    } else {
        store_lookup(rows.drop_first(), key)
    }
}

/// The table after an unconditional point write of `item` under `key`:
/// the row holding `key` is overwritten in place, or a row is appended
/// when the key is new. All other rows are untouched.
pub open spec fn store_put(rows: Seq<EventRowV>, key: EventKeyV, item: Seq<FieldV>) -> Seq<
    EventRowV,
>
    decreases rows.len(),
{
    if rows.len() == 0 {
        seq![EventRowV { key, item }]
    } else if rows[0].key == key {
        seq![EventRowV { key, item }] + rows.drop_first()
    } else {
        seq![rows[0]] + store_put(rows.drop_first(), key, item)
    }
}

/// A write is visible to a read of the same key: the lookup finds
/// exactly the record just written.
pub proof fn lemma_lookup_after_put_same(rows: Seq<EventRowV>, key: EventKeyV, item: Seq<FieldV>)
    ensures
        store_lookup(store_put(rows, key, item), key) == Some(item),
    decreases rows.len(),
{
    if rows.len() == 0 {
    } else if rows[0].key == key {
        assert(store_put(rows, key, item)[0] == (EventRowV { key, item }));
    } else {
        lemma_lookup_after_put_same(rows.drop_first(), key, item);
        assert((seq![rows[0]] + store_put(rows.drop_first(), key, item)).drop_first()
            =~= store_put(rows.drop_first(), key, item));
    }
}

/// A write leaves every other key exactly as it was.
pub proof fn lemma_lookup_after_put_other(
    rows: Seq<EventRowV>,
    key: EventKeyV,
    item: Seq<FieldV>,
    other: EventKeyV,
)
    requires
        other != key,
    ensures
        store_lookup(store_put(rows, key, item), other) == store_lookup(rows, other),
    decreases rows.len(),
{
    reveal_with_fuel(store_lookup, 3);
    if rows.len() == 0 {
        assert(seq![EventRowV { key, item }].drop_first() =~= Seq::<EventRowV>::empty());
    } else if rows[0].key == key {
        assert((seq![EventRowV { key, item }] + rows.drop_first())[0] == (EventRowV {
            key,
            item,
        }));
        assert((seq![EventRowV { key, item }] + rows.drop_first()).drop_first()
            =~= rows.drop_first());
    } else {
        lemma_lookup_after_put_other(rows.drop_first(), key, item, other);
        assert((seq![rows[0]] + store_put(rows.drop_first(), key, item))[0] == rows[0]);
        assert((seq![rows[0]] + store_put(rows.drop_first(), key, item)).drop_first()
            =~= store_put(rows.drop_first(), key, item));
    }
}

/// When every row before index `i` holds another key and the row at `i`
/// holds `key`, the lookup finds the row at `i`.
proof fn lemma_lookup_first_match(rows: Seq<EventRowV>, key: EventKeyV, i: int)
    requires
        0 <= i < rows.len(),
        forall|j: int| 0 <= j < i ==> rows[j].key != key,
        rows[i].key == key,
    ensures
        store_lookup(rows, key) == Some(rows[i].item),
    decreases i,
{
    if i > 0 {
        lemma_lookup_first_match(rows.drop_first(), key, i - 1);
    }
}

/// When no row holds `key`, the lookup finds nothing.
proof fn lemma_lookup_no_match(rows: Seq<EventRowV>, key: EventKeyV)
    requires
        forall|j: int| 0 <= j < rows.len() ==> rows[j].key != key,
    ensures
        store_lookup(rows, key) is None,
    decreases rows.len(),
{
    if rows.len() > 0 {
        lemma_lookup_no_match(rows.drop_first(), key);
    }
}

/// When every row before index `i` holds another key and the row at `i`
/// holds `key`, the write overwrites exactly the row at `i`.
proof fn lemma_put_overwrites_first_match(
    rows: Seq<EventRowV>,
    key: EventKeyV,
    item: Seq<FieldV>,
    i: int,
)
    requires
        0 <= i < rows.len(),
        forall|j: int| 0 <= j < i ==> rows[j].key != key,
        rows[i].key == key,
    ensures
        store_put(rows, key, item) == rows.update(i, EventRowV { key, item }),
    decreases i,
{
    if i == 0 {
        assert(store_put(rows, key, item) =~= rows.update(0, EventRowV { key, item }));
    } else {
        lemma_put_overwrites_first_match(rows.drop_first(), key, item, i - 1);
        assert(seq![rows[0]] + rows.drop_first().update(i - 1, EventRowV { key, item })
            =~= rows.update(i, EventRowV { key, item }));
    }
}

/// When no row holds `key`, the write appends a new row.
proof fn lemma_put_appends(rows: Seq<EventRowV>, key: EventKeyV, item: Seq<FieldV>)
    requires
        forall|j: int| 0 <= j < rows.len() ==> rows[j].key != key,
    ensures
        store_put(rows, key, item) == rows.push(EventRowV { key, item }),
    decreases rows.len(),
{
    if rows.len() == 0 {
        assert(store_put(rows, key, item) =~= rows.push(EventRowV { key, item }));
    } else {
        lemma_put_appends(rows.drop_first(), key, item);
        assert(seq![rows[0]] + rows.drop_first().push(EventRowV { key, item })
            =~= rows.push(EventRowV { key, item }));
    }
}

/// Writing the same record twice is idempotent: the second write leaves
/// the table exactly as the first left it.
pub proof fn lemma_put_idempotent(rows: Seq<EventRowV>, key: EventKeyV, item: Seq<FieldV>)
    ensures
        store_put(store_put(rows, key, item), key, item) == store_put(rows, key, item),
    decreases rows.len(),
{
    let once = store_put(rows, key, item);
    if rows.len() == 0 {
        assert(store_put(once, key, item) =~= once);
    } else if rows[0].key == key {
        assert(once[0] == (EventRowV { key, item }));
        assert(once.drop_first() =~= rows.drop_first());
        assert(store_put(once, key, item) =~= once);
    } else {
        lemma_put_idempotent(rows.drop_first(), key, item);
        assert(once[0] == rows[0]);
        assert(once.drop_first() =~= store_put(rows.drop_first(), key, item));
        assert(store_put(once, key, item) =~= once);
    }
}

/// The table after a sequence of events is written, first to last.
pub open spec fn apply_writes(rows: Seq<EventRowV>, evs: Seq<EventV>) -> Seq<EventRowV>
    decreases evs.len(),
{
    if evs.len() == 0 {
        rows
    } else {
        apply_writes(
            store_put(rows, evs[0].primary_key, encode_event_s(evs[0])),
            evs.drop_first(),
        )
    }
}

/// Writes under other keys leave a key's lookup unchanged.
proof fn lemma_apply_writes_other(rows: Seq<EventRowV>, evs: Seq<EventV>, key: EventKeyV)
    requires
        forall|i: int| 0 <= i < evs.len() ==> (#[trigger] evs[i]).primary_key != key,
    ensures
        store_lookup(apply_writes(rows, evs), key) == store_lookup(rows, key),
    decreases evs.len(),
{
    if evs.len() > 0 {
        lemma_lookup_after_put_other(rows, evs[0].primary_key, encode_event_s(evs[0]), key);
        assert(forall|i: int|
            0 <= i < evs.drop_first().len() ==> (#[trigger] evs.drop_first()[i]).primary_key
                != key);
        lemma_apply_writes_other(
            store_put(rows, evs[0].primary_key, encode_event_s(evs[0])),
            evs.drop_first(),
            key,
        );
    }
}

/// A key never written is absent: after any sequence of writes, none of
/// them under `key`, a lookup of `key` in a table that started empty
/// finds nothing — so a read of it reports that the key is missing, not
/// a decode failure.
pub proof fn lemma_unwritten_key_is_absent(evs: Seq<EventV>, key: EventKeyV)
    requires
        forall|i: int| 0 <= i < evs.len() ==> (#[trigger] evs[i]).primary_key != key,
    ensures
        store_lookup(apply_writes(Seq::empty(), evs), key) is None,
{
    lemma_apply_writes_other(Seq::empty(), evs, key);
}

/// Read after write: once `e` is written, a lookup of its key finds
/// exactly the record of `e`, and that record decodes back to `e`
/// itself — so the read returns `e`, whatever else the table held.
pub proof fn lemma_read_after_write(rows: Seq<EventRowV>, e: EventV)
    ensures
        store_lookup(store_put(rows, e.primary_key, encode_event_s(e)), e.primary_key) == Some(
            encode_event_s(e),
        ),
        decode_event_s(encode_event_s(e)) == Ok::<EventV, DecodeError>(e),
{
    lemma_lookup_after_put_same(rows, e.primary_key, encode_event_s(e));
    crate::codec::lemma_event_round_trip(e);
}

/// Last writer wins: writing `e1` and then `e2` under one shared key
/// leaves `e2`'s record there, and a read of that key returns `e2`.
pub proof fn lemma_overwrite_last_wins(rows: Seq<EventRowV>, e1: EventV, e2: EventV)
    requires
        e1.primary_key == e2.primary_key,
    ensures
        store_lookup(
            store_put(
                store_put(rows, e1.primary_key, encode_event_s(e1)),
                e2.primary_key,
                encode_event_s(e2),
            ),
            e2.primary_key,
        ) == Some(encode_event_s(e2)),
        decode_event_s(encode_event_s(e2)) == Ok::<EventV, DecodeError>(e2),
{
    lemma_lookup_after_put_same(
        store_put(rows, e1.primary_key, encode_event_s(e1)),
        e2.primary_key,
        encode_event_s(e2),
    );
    crate::codec::lemma_event_round_trip(e2);
}

/// An in-memory event table: the reference model of the key-value
/// collaborator that event records are written to, one record per
/// composite key, with last-writer-wins overwrite.
pub struct EventStore {
    rows: Vec<EventRow>,
}

impl View for EventStore {
    type V = Seq<EventRowV>;

    closed spec fn view(&self) -> Seq<EventRowV> {
        Seq::new(
            self.rows@.len(),
            |i: int|
                if 0 <= i < self.rows@.len() {
                    EventRowV { key: self.rows@[i].key@, item: self.rows@[i].item@ }
                } else {
                    arbitrary()
                },
        )
    }
}

impl EventStore {
    /// An empty event table: no key has a record yet.
    pub fn new() -> (r: EventStore)
        ensures
            r@ =~= Seq::<EventRowV>::empty(),
    {
        EventStore { rows: Vec::new() }
    }

    /// Encodes the event and performs an unconditional point write under
    /// its composite key: the write always succeeds, overwrites any
    /// record at that key, and touches no other key. Writing the same
    /// event twice leaves the table as after writing it once.
    #[verifier::loop_isolation(false)]
    pub fn write(&mut self, event: Event) -> (r: Result<(), StoreError>)
        ensures
            r is Ok,
            final(self)@ == store_put(old(self)@, event@.primary_key, encode_event_s(event@)),
    {
        let item = encode_event(&event);
        let key = event.primary_key;
        let n: usize = self.rows.len();
        let mut i: usize = 0;
        while i < n
            invariant
                self@ == old(self)@,
                n == self.rows@.len(),
                0 <= i <= n,
                forall|j: int| 0 <= j < i ==> self@[j].key != key@,
            decreases n - i,
        {
            if self.rows[i].key == key {
                self.rows[i] = EventRow { key, item };
                proof {
                    assert(self@ =~= old(self)@.update(
                        i as int,
                        EventRowV { key: key@, item: item@ },
                    ));
                    lemma_put_overwrites_first_match(old(self)@, key@, item@, i as int);
                }
                return Ok(());
            }
            i = i + 1;
        }
        self.rows.push(EventRow { key, item });
        proof {
            assert(self@ =~= old(self)@.push(EventRowV { key: key@, item: item@ }));
            lemma_put_appends(old(self)@, key@, item@);
        }
        Ok(())
    }

    /// Performs a point lookup by the composite key and decodes what is
    /// there: `NotFound` when no record exists at that key, a decode
    /// error when the record there is malformed, and the stored event
    /// otherwise.
    #[verifier::loop_isolation(false)]
    pub fn read(&self, key: &EventKey) -> (r: Result<Event, StoreError>)
        ensures
            match store_lookup(self@, key@) {
                Option::None => r matches Err(e) && e == StoreError::NotFound,
                Option::Some(item) => match decode_event_s(item) {
                    Ok(ev) => r matches Ok(e) && e@ == ev,
                    Err(de) => r matches Err(e2) && e2 == StoreError::Decode(de),
                },
            },
    {
        let n: usize = self.rows.len();
        let mut i: usize = 0;
        while i < n
            invariant
                0 <= i <= n,
                forall|j: int| 0 <= j < i ==> self@[j].key != key@,
            decreases n - i,
        {
            if &self.rows[i].key == key {
                proof {
                    lemma_lookup_first_match(self@, key@, i as int);
                }
                return match decode_event(&self.rows[i].item) {
                    Ok(e) => Ok(e),
                    Err(de) => Err(StoreError::Decode(de)),
                };
            }
            i = i + 1;
        }
        proof {
            lemma_lookup_no_match(self@, key@);
        }
        Err(StoreError::NotFound)
    }
}

} // verus!
