//! Aggregates and the aggregate store: a named bundle of an ordered
//! event history plus summary metadata, persisted as one atomic record
//! keyed by the aggregate's identity. The event list is embedded in the
//! aggregate's own record, and its order is load-bearing: it is the
//! replayable history.

use crate::attr::{AttributeRecord, FieldV};
use crate::events::{events_view, Event, EventV};
use crate::{DecodeError, StoreError};
use vstd::prelude::*;

verus! {

/// The sole identity of an aggregate: an opaque string.
pub type AggregateID = String;

/// An aggregate: an identity, an ordered sequence of events, a creation
/// timestamp, and a caller-maintained version counter. The version is
/// stored as advisory metadata; this layer does not enforce it against
/// concurrent writers.
#[derive(Debug)]
pub struct Aggregate {
    pub id: AggregateID,
    pub events: Vec<Event>,
    pub created_at: u64,
    pub version: u64,
}

/// The model of an [`Aggregate`].
pub struct AggregateV {
    pub id: Seq<char>,
    pub events: Seq<EventV>,
    pub created_at: u64,
    pub version: u64,
}

impl View for Aggregate {
    type V = AggregateV;

    open spec fn view(&self) -> AggregateV {
        AggregateV {
            id: self.id@,
            events: events_view(self.events@),
            created_at: self.created_at,
            version: self.version,
        }
    }
}

/// One stored row of the aggregate table: the identity and the record
/// written under it.
struct AggregateRow {
    id: AggregateID,
    item: AttributeRecord,
}

/// The model of one stored row.
pub struct AggregateRowV {
    pub id: Seq<char>,
    pub item: Seq<FieldV>,
}

/// The record stored under `id`, or `None` when no row carries it.
pub open spec fn agg_lookup(rows: Seq<AggregateRowV>, id: Seq<char>) -> Option<Seq<FieldV>>
    decreases rows.len(),
{
    if rows.len() == 0 {
        None
    } else if rows[0].id == id {
        Some(rows[0].item)
    } else {
        agg_lookup(rows.drop_first(), id)
    }
}

/// The table after an unconditional point write of `item` under `id`:
/// the row holding `id` is overwritten in place, or a row is appended
/// when the identity is new. All other rows are untouched.
pub open spec fn agg_put(rows: Seq<AggregateRowV>, id: Seq<char>, item: Seq<FieldV>) -> Seq<
    AggregateRowV,
>
    decreases rows.len(),
{
    if rows.len() == 0 {
        seq![AggregateRowV { id, item }]
    } else if rows[0].id == id {
        seq![AggregateRowV { id, item }] + rows.drop_first()
    } else {
        seq![rows[0]] + agg_put(rows.drop_first(), id, item)
    }
}

/// A write is visible to a read of the same identity: the lookup finds
/// exactly the record just written.
pub proof fn lemma_agg_lookup_after_put_same(
    rows: Seq<AggregateRowV>,
    id: Seq<char>,
    item: Seq<FieldV>,
)
    ensures
        agg_lookup(agg_put(rows, id, item), id) == Some(item),
    decreases rows.len(),
{
    if rows.len() == 0 {
    } else if rows[0].id == id {
        assert(agg_put(rows, id, item)[0] == (AggregateRowV { id, item }));
    } else {
        lemma_agg_lookup_after_put_same(rows.drop_first(), id, item);
        assert((seq![rows[0]] + agg_put(rows.drop_first(), id, item)).drop_first()
            =~= agg_put(rows.drop_first(), id, item));
    }
}

/// A write leaves every other identity exactly as it was.
pub proof fn lemma_agg_lookup_after_put_other(
    rows: Seq<AggregateRowV>,
    id: Seq<char>,
    item: Seq<FieldV>,
    other: Seq<char>,
)
    requires
        other != id,
    ensures
        agg_lookup(agg_put(rows, id, item), other) == agg_lookup(rows, other),
    decreases rows.len(),
{
    reveal_with_fuel(agg_lookup, 3);
    if rows.len() == 0 {
        assert(seq![AggregateRowV { id, item }].drop_first() =~= Seq::<AggregateRowV>::empty());
    } else if rows[0].id == id {
        assert((seq![AggregateRowV { id, item }] + rows.drop_first())[0] == (AggregateRowV {
            id,
            item,
        }));
        assert((seq![AggregateRowV { id, item }] + rows.drop_first()).drop_first()
            =~= rows.drop_first());
    } else {
        lemma_agg_lookup_after_put_other(rows.drop_first(), id, item, other);
        assert((seq![rows[0]] + agg_put(rows.drop_first(), id, item))[0] == rows[0]);
        assert((seq![rows[0]] + agg_put(rows.drop_first(), id, item)).drop_first()
            =~= agg_put(rows.drop_first(), id, item));
    }
}

/// When every row before index `i` holds another identity and the row at
/// `i` holds `id`, the lookup finds the row at `i`.
proof fn lemma_agg_lookup_first_match(rows: Seq<AggregateRowV>, id: Seq<char>, i: int)
    requires
        0 <= i < rows.len(),
        forall|j: int| 0 <= j < i ==> rows[j].id != id,
        rows[i].id == id,
    ensures
        agg_lookup(rows, id) == Some(rows[i].item),
    decreases i,
{
    if i > 0 {
        lemma_agg_lookup_first_match(rows.drop_first(), id, i - 1);
    }
}

/// When no row holds `id`, the lookup finds nothing.
proof fn lemma_agg_lookup_no_match(rows: Seq<AggregateRowV>, id: Seq<char>)
    requires
        forall|j: int| 0 <= j < rows.len() ==> rows[j].id != id,
    ensures
        agg_lookup(rows, id) is None,
    decreases rows.len(),
{
    if rows.len() > 0 {
        lemma_agg_lookup_no_match(rows.drop_first(), id);
    }
}

/// When every row before index `i` holds another identity and the row at
/// `i` holds `id`, the write overwrites exactly the row at `i`.
proof fn lemma_agg_put_overwrites_first_match(
    rows: Seq<AggregateRowV>,
    id: Seq<char>,
    item: Seq<FieldV>,
    i: int,
)
    requires
        0 <= i < rows.len(),
        forall|j: int| 0 <= j < i ==> rows[j].id != id,
        rows[i].id == id,
    ensures
        agg_put(rows, id, item) == rows.update(i, AggregateRowV { id, item }),
    decreases i,
{
    if i == 0 {
        assert(agg_put(rows, id, item) =~= rows.update(0, AggregateRowV { id, item }));
    } else {
        lemma_agg_put_overwrites_first_match(rows.drop_first(), id, item, i - 1);
        assert(seq![rows[0]] + rows.drop_first().update(i - 1, AggregateRowV { id, item })
            =~= rows.update(i, AggregateRowV { id, item }));
    }
}

/// When no row holds `id`, the write appends a new row.
proof fn lemma_agg_put_appends(rows: Seq<AggregateRowV>, id: Seq<char>, item: Seq<FieldV>)
    requires
        forall|j: int| 0 <= j < rows.len() ==> rows[j].id != id,
    ensures
        agg_put(rows, id, item) == rows.push(AggregateRowV { id, item }),
    decreases rows.len(),
{
    if rows.len() == 0 {
        assert(agg_put(rows, id, item) =~= rows.push(AggregateRowV { id, item }));
    } else {
        lemma_agg_put_appends(rows.drop_first(), id, item);
        assert(seq![rows[0]] + rows.drop_first().push(AggregateRowV { id, item })
            =~= rows.push(AggregateRowV { id, item }));
    }
}

/// Writing the same record twice is idempotent: the second write leaves
/// the table exactly as the first left it.
pub proof fn lemma_agg_put_idempotent(rows: Seq<AggregateRowV>, id: Seq<char>, item: Seq<FieldV>)
    ensures
        agg_put(agg_put(rows, id, item), id, item) == agg_put(rows, id, item),
    decreases rows.len(),
{
    let once = agg_put(rows, id, item);
    if rows.len() == 0 {
        assert(agg_put(once, id, item) =~= once);
    } else if rows[0].id == id {
        assert(once[0] == (AggregateRowV { id, item }));
        assert(once.drop_first() =~= rows.drop_first());
        assert(agg_put(once, id, item) =~= once);
    } else {
        lemma_agg_put_idempotent(rows.drop_first(), id, item);
        assert(once[0] == rows[0]);
        assert(once.drop_first() =~= agg_put(rows.drop_first(), id, item));
        assert(agg_put(once, id, item) =~= once);
    }
}

/// Read after write: once `a` is written, a lookup of its identity finds
/// exactly the record of `a`, and that record decodes back to `a`
/// itself — the whole event history in its original order, with nothing
/// reordered, dropped, or deduplicated.
pub proof fn lemma_aggregate_read_after_write(rows: Seq<AggregateRowV>, a: AggregateV)
    ensures
        agg_lookup(agg_put(rows, a.id, crate::codec::encode_aggregate_s(a)), a.id) == Some(
            crate::codec::encode_aggregate_s(a),
        ),
        crate::codec::decode_aggregate_s(crate::codec::encode_aggregate_s(a)) == Ok::<
            AggregateV,
            DecodeError,
        >(a),
{
    lemma_agg_lookup_after_put_same(rows, a.id, crate::codec::encode_aggregate_s(a));
    crate::codec::lemma_aggregate_round_trip(a);
}

/// An in-memory aggregate table: the reference model of the key-value
/// collaborator that aggregate records are written to, one record per
/// identity, with last-writer-wins overwrite.
pub struct AggregateStore {
    rows: Vec<AggregateRow>,
}

impl View for AggregateStore {
    type V = Seq<AggregateRowV>;

    closed spec fn view(&self) -> Seq<AggregateRowV> {
        Seq::new(
            self.rows@.len(),
            |i: int|
                if 0 <= i < self.rows@.len() {
                    AggregateRowV { id: self.rows@[i].id@, item: self.rows@[i].item@ }
                } else {
                    arbitrary()
                },
        )
    }
}

impl AggregateStore {
    /// An empty aggregate table: no identity has a record yet.
    pub fn new() -> (r: AggregateStore)
        ensures
            r@ =~= Seq::<AggregateRowV>::empty(),
    {
        AggregateStore { rows: Vec::new() }
    }

    /// Encodes the aggregate — its whole event history embedded, in
    /// order — and performs an unconditional point write under its
    /// identity: the write always succeeds, overwrites any record at
    /// that identity, and touches no other.
    #[verifier::loop_isolation(false)]
    pub fn write(&mut self, aggregate: Aggregate) -> (r: Result<(), StoreError>)
        ensures
            r is Ok,
            final(self)@ == agg_put(
                old(self)@,
                aggregate@.id,
                crate::codec::encode_aggregate_s(aggregate@),
            ),
    {
        let item = crate::codec::encode_aggregate(&aggregate);
        let id = aggregate.id;
        let n: usize = self.rows.len();
        let mut i: usize = 0;
        while i < n
            invariant
                self@ == old(self)@,
                n == self.rows@.len(),
                0 <= i <= n,
                forall|j: int| 0 <= j < i ==> self@[j].id != id@,
            decreases n - i,
        {
            if self.rows[i].id == id {
                self.rows[i] = AggregateRow { id, item };
                proof {
                    assert(self@ =~= old(self)@.update(
                        i as int,
                        AggregateRowV { id: id@, item: item@ },
                    ));
                    lemma_agg_put_overwrites_first_match(old(self)@, id@, item@, i as int);
                }
                return Ok(());
            }
            i = i + 1;
        }
        self.rows.push(AggregateRow { id, item });
        proof {
            assert(self@ =~= old(self)@.push(AggregateRowV { id: id@, item: item@ }));
            lemma_agg_put_appends(old(self)@, id@, item@);
        }
        Ok(())
    }

    /// Performs a point lookup by identity and decodes what is there:
    /// `NotFound` when no record exists at that identity, a decode error
    /// when the record there is malformed, and the stored aggregate
    /// otherwise, its event sequence in exactly the order it was
    /// written.
    #[verifier::loop_isolation(false)]
    pub fn read(&self, id: &AggregateID) -> (r: Result<Aggregate, StoreError>)
        ensures
            match agg_lookup(self@, id@) {
                Option::None => r matches Err(e) && e == StoreError::NotFound,
                Option::Some(item) => match crate::codec::decode_aggregate_s(item) {
                    Ok(av) => r matches Ok(a) && a@ == av,
                    Err(de) => r matches Err(e2) && e2 == StoreError::Decode(de),
                },
            },
    {
        let n: usize = self.rows.len();
        let mut i: usize = 0;
        while i < n
            invariant
                0 <= i <= n,
                forall|j: int| 0 <= j < i ==> self@[j].id != id@,
            decreases n - i,
        {
            if self.rows[i].id == *id {
                proof {
                    lemma_agg_lookup_first_match(self@, id@, i as int);
                }
                return match crate::codec::decode_aggregate(&self.rows[i].item) {
                    Ok(a) => Ok(a),
                    Err(de) => Err(StoreError::Decode(de)),
                };
            }
            i = i + 1;
        }
        proof {
            lemma_agg_lookup_no_match(self@, id@);
        }
        Err(StoreError::NotFound)
    }
}

} // verus!
