//! The queue of events about items, delivered to each consumer on its own.

use std::collections::HashSet;
use vstd::prelude::*;

use crate::content::{ContentId, ContentItem, ContentKind, DeviceId};
use crate::table::{
    distinct_keys, lemma_rows_map, lemma_rows_push, lemma_rows_update, rows_map,
};

verus! {

/// What happened to an item.
#[derive(Clone, Copy, Debug, PartialEq, Eq, Structural)]
pub enum EventType {
    Committed,
    Deleted,
}

/// Who is told of events.
#[derive(Clone, Copy, Debug, PartialEq, Eq, Structural)]
pub enum Consumer {
    Lan,
    Hub,
    HubDelete,
}

impl EventType {
    /// The name of the event type.
    pub fn as_str(&self) -> (r: &'static str)
        ensures
            r@ == (match *self {
                EventType::Committed => "content.committed.v1"@,
                EventType::Deleted => "content.deleted.v1"@,
            }),
    {
        match self {
            EventType::Committed => "content.committed.v1",
            EventType::Deleted => "content.deleted.v1",
        }
    }
}

impl Consumer {
    /// The name of the consumer.
    pub fn as_str(&self) -> (r: &'static str)
        ensures
            r@ == (match *self {
                Consumer::Lan => "asterism.sync.lan"@,
                Consumer::Hub => "asterism.sync.hub"@,
                Consumer::HubDelete => "asterism.sync.hub_delete"@,
            }),
    {
        match self {
            Consumer::Lan => "asterism.sync.lan",
            Consumer::Hub => "asterism.sync.hub",
            Consumer::HubDelete => "asterism.sync.hub_delete",
        }
    }
}

/// What an event tells of its item.
#[derive(Clone, Copy, Debug, PartialEq, Eq, Structural)]
pub struct OutboxPayload {
    pub aggregate_id: ContentId,
    pub origin_device_id: Option<DeviceId>,
    pub kind: Option<ContentKind>,
    pub from_remote: bool,
}

/// An event in the queue.
#[derive(Clone, Copy, Debug, PartialEq, Eq, Structural)]
pub struct OutboxEvent {
    pub id: i64,
    pub event_id: u128,
    pub event_type: EventType,
    pub aggregate_id: ContentId,
    pub payload: OutboxPayload,
    pub created_at_ms: i64,
    pub available_at_ms: i64,
    pub attempts: u64,
}

/// How the delivery of one event to one consumer stands.
#[derive(Clone, Copy, Debug, PartialEq, Eq, Structural)]
pub struct Delivery {
    pub event_id: u128,
    pub consumer: Consumer,
    pub acked_at_ms: Option<i64>,
    pub available_at_ms: i64,
    pub attempts: u64,
}

/// The queue: events in the order they were added, and what consumers did.
#[derive(Debug)]
pub struct Outbox {
    pub rows: Vec<OutboxEvent>,
    pub deliveries: Vec<Delivery>,
    pub last_id: i64,
}

/// The event and the consumer that a delivery is about.
pub open spec fn delivery_key(d: Delivery) -> (u128, Consumer) {
    (d.event_id, d.consumer)
}

/// The deliveries as rows keyed by event and consumer.
pub open spec fn delivery_rows(ds: Seq<Delivery>) -> Seq<((u128, Consumer), Delivery)> {
    ds.map_values(|d: Delivery| (delivery_key(d), d))
}

/// Whether no two deliveries are about the same event and consumer.
pub open spec fn distinct_deliveries(ds: Seq<Delivery>) -> bool {
    distinct_keys(delivery_rows(ds))
}

/// Deliveries by event and consumer.
pub open spec fn delivery_map(ds: Seq<Delivery>) -> Map<(u128, Consumer), Delivery> {
    rows_map(delivery_rows(ds))
}

/// Replacing a delivery by one about the same event and consumer replaces it in
/// the map.
proof fn lemma_delivery_update(ds: Seq<Delivery>, i: int, d: Delivery)
    requires
        distinct_deliveries(ds),
        0 <= i < ds.len(),
        delivery_key(d) == delivery_key(ds[i]),
    ensures
        distinct_deliveries(ds.update(i, d)),
        delivery_map(ds.update(i, d)) == delivery_map(ds).insert(delivery_key(d), d),
{
    lemma_rows_update(delivery_rows(ds), i, d);
    assert(delivery_rows(ds.update(i, d)) =~= delivery_rows(ds).update(i, (delivery_key(d), d)));
}

/// A delivery about a new event and consumer is added to the map.
proof fn lemma_delivery_push(ds: Seq<Delivery>, d: Delivery)
    requires
        distinct_deliveries(ds),
        !delivery_map(ds).dom().contains(delivery_key(d)),
    ensures
        distinct_deliveries(ds.push(d)),
        delivery_map(ds.push(d)) == delivery_map(ds).insert(delivery_key(d), d),
{
    lemma_rows_push(delivery_rows(ds), delivery_key(d), d);
    assert(delivery_rows(ds.push(d)) =~= delivery_rows(ds).push((delivery_key(d), d)));
}

/// Whether the events are in ascending order of their numbers, and no two share
/// an event identity.
pub open spec fn ordered_rows(rows: Seq<OutboxEvent>) -> bool {
    forall|i: int, j: int|
        0 <= i < j < rows.len() ==> (#[trigger] rows[i]).id < (#[trigger] rows[j]).id
            && rows[i].event_id != rows[j].event_id
}

/// The event with a number, if there is one.
pub open spec fn row_with(rows: Seq<OutboxEvent>, id: i64) -> Option<OutboxEvent>
    decreases rows.len(),
{
    if rows.len() == 0 {
        None
    } else if rows.last().id == id {
        Some(rows.last())
    } else {
        row_with(rows.drop_last(), id)
    }
}

/// The number of events that one request hands out.
pub open spec fn page_limit(limit: u32) -> nat {
    if limit == 0 {
        50
    } else if limit > 200 {
        200
    } else {
        limit as nat
    }
}

/// The number of entries that one request hands out: fifty if the request names
/// none, and never more than two hundred.
pub fn clamp_limit(limit: u32) -> (r: usize)
    ensures
        r == page_limit(limit),
        0 < r <= 200,
{
    if limit == 0 {
        50
    } else if limit > 200 {
        200
    } else {
        limit as usize
    }
}

/// Whether an event is to be delivered to a consumer at a time: it has the type,
/// the consumer has not acknowledged it, and it is due.
pub open spec fn is_due(
    row: OutboxEvent,
    ds: Map<(u128, Consumer), Delivery>,
    event_type: EventType,
    consumer: Consumer,
    now_ms: i64,
) -> bool {
    let key = (row.event_id, consumer);
    &&& row.event_type == event_type
    &&& if ds.dom().contains(key) {
        ds[key].acked_at_ms is None && ds[key].available_at_ms <= now_ms
    } else {
        row.available_at_ms <= now_ms
    }
}

/// An event with the number of attempts that a consumer has made.
pub open spec fn seen_by(
    row: OutboxEvent,
    ds: Map<(u128, Consumer), Delivery>,
    consumer: Consumer,
) -> OutboxEvent {
    let key = (row.event_id, consumer);
    OutboxEvent {
        attempts: if ds.dom().contains(key) {
            ds[key].attempts
        } else {
            0
        },
        ..row
    }
}

/// The events to be delivered to a consumer, in order.
pub open spec fn due_rows(
    rows: Seq<OutboxEvent>,
    ds: Map<(u128, Consumer), Delivery>,
    event_type: EventType,
    consumer: Consumer,
    now_ms: i64,
) -> Seq<OutboxEvent>
    decreases rows.len(),
{
    if rows.len() == 0 {
        Seq::empty()
    } else {
        let before = due_rows(rows.drop_last(), ds, event_type, consumer, now_ms);
        if is_due(rows.last(), ds, event_type, consumer, now_ms) {
            before.push(seen_by(rows.last(), ds, consumer))
        } else {
            before
        }
    }
}

/// The events that are available at a time, in order, whoever they are for.
pub open spec fn available_rows(
    rows: Seq<OutboxEvent>,
    event_type: Option<EventType>,
    now_ms: i64,
) -> Seq<OutboxEvent>
    decreases rows.len(),
{
    if rows.len() == 0 {
        Seq::empty()
    } else {
        let before = available_rows(rows.drop_last(), event_type, now_ms);
        if rows.last().available_at_ms <= now_ms && (event_type is Some ==> event_type->0
            == rows.last().event_type) {
            before.push(rows.last())
        } else {
            before
        }
    }
}

/// The first `n` of a sequence, or all if it has fewer.
pub open spec fn first_n<T>(s: Seq<T>, n: nat) -> Seq<T> {
    if s.len() <= n {
        s
    } else {
        s.take(n as int)
    }
}

/// Whether a key is among the first `n` rows.
pub open spec fn has_key<K, V>(rows: Seq<(K, V)>, n: int, key: K) -> bool {
    exists|i: int| 0 <= i < n && (#[trigger] rows[i]).0 == key
}

/// Whether a sequence of numbers has no repetition.
pub fn all_distinct(v: &Vec<u128>) -> (r: bool)
    ensures
        r == v@.no_duplicates(),
{
    broadcast use vstd::std_specs::hash::group_hash_axioms;

    let mut seen: HashSet<u128> = HashSet::new();
    let mut i: usize = 0;
    while i < v.len()
        invariant
            i <= v@.len(),
            forall|x: u128| #[trigger] seen@.contains(x) <==> v@.take(i as int).contains(x),
            v@.take(i as int).no_duplicates(),
        decreases v@.len() - i,
    {
        let x = v[i];
        proof {
            assert(v@.take(i + 1) =~= v@.take(i as int).push(x));
        }
        if seen.contains(&x) {
            proof {
                let k = choose|k: int| 0 <= k < i && v@.take(i as int)[k] == x;
                assert(v@[k] == v@[i as int]);
            }
            return false;
        }
        let _ = seen.insert(x);
        proof {
            let done = v@.take(i as int);
            let more = v@.take(i + 1);
            assert forall|y: u128| #[trigger] seen@.contains(y) <==> more.contains(y) by {
                if more.contains(y) {
                    let k = choose|k: int| 0 <= k < more.len() && more[k] == y;
                    if k < i {
                        assert(done[k] == y);
                    }
                }
                if done.contains(y) {
                    let k = choose|k: int| 0 <= k < done.len() && done[k] == y;
                    assert(more[k] == y);
                }
                assert(more[i as int] == x);
            }
            assert forall|a: int, b: int| 0 <= a < more.len() && 0 <= b < more.len() && a
                != b implies more[a] != more[b] by {
                if a < i {
                    assert(done[a] == more[a]);
                    assert(done.contains(done[a]));
                }
                if b < i {
                    assert(done[b] == more[b]);
                    assert(done.contains(done[b]));
                }
            }
        }
        i += 1;
    }
    assert(v@.take(i as int) =~= v@);
    true
}

/// The event that tells of a new item.
pub open spec fn committed_event(
    item: ContentItem,
    event_id: u128,
    number: i64,
    now_ms: i64,
) -> OutboxEvent {
    OutboxEvent {
        id: number,
        event_id,
        event_type: EventType::Committed,
        aggregate_id: item.id,
        payload: OutboxPayload {
            aggregate_id: item.id,
            origin_device_id: Some(item.origin_device_id),
            kind: Some(item.kind),
            from_remote: item.flags.from_remote,
        },
        created_at_ms: now_ms,
        available_at_ms: now_ms,
        attempts: 0,
    }
}

/// The event that tells that an item was removed.
pub open spec fn deleted_event(
    id: ContentId,
    event_id: u128,
    number: i64,
    now_ms: i64,
) -> OutboxEvent {
    OutboxEvent {
        id: number,
        event_id,
        event_type: EventType::Deleted,
        aggregate_id: id,
        payload: OutboxPayload {
            aggregate_id: id,
            origin_device_id: None,
            kind: None,
            from_remote: false,
        },
        created_at_ms: now_ms,
        available_at_ms: now_ms,
        attempts: 0,
    }
}

impl Outbox {
    /// Whether the queue is in order, and deliveries are told apart and are
    /// about events of the queue.
    pub fn is_consistent(&self) -> (r: bool)
        ensures
            r == self.wf(),
    {
        self.rows_consistent() && self.deliveries_consistent() && self.deliveries_about_rows()
            && self.last_id >= 0
    }

    fn deliveries_about_rows(&self) -> (r: bool)
        ensures
            r == (forall|k: int|
                0 <= k < self.deliveries@.len() ==> self.has_event_id(
                    (#[trigger] self.deliveries@[k]).event_id,
                )),
    {
        broadcast use vstd::std_specs::hash::group_hash_axioms;

        let mut known: HashSet<u128> = HashSet::new();
        let mut i: usize = 0;
        while i < self.rows.len()
            invariant
                i <= self.rows@.len(),
                forall|e: u128| #[trigger]
                    known@.contains(e) <==> exists|j: int|
                        0 <= j < i && (#[trigger] self.rows@[j]).event_id == e,
            decreases self.rows@.len() - i,
        {
            let _ = known.insert(self.rows[i].event_id);
            i += 1;
        }
        let mut k: usize = 0;
        while k < self.deliveries.len()
            invariant
                k <= self.deliveries@.len(),
                forall|e: u128| #[trigger] known@.contains(e) <==> self.has_event_id(e),
                forall|j: int|
                    0 <= j < k ==> self.has_event_id((#[trigger] self.deliveries@[j]).event_id),
            decreases self.deliveries@.len() - k,
        {
            let d = self.deliveries[k];
            if !known.contains(&d.event_id) {
                assert(!self.has_event_id(self.deliveries@[k as int].event_id));
                return false;
            }
            k += 1;
        }
        true
    }

    fn rows_consistent(&self) -> (r: bool)
        ensures
            r == (ordered_rows(self.rows@) && forall|i: int|
                0 <= i < self.rows@.len() ==> (#[trigger] self.rows@[i]).id <= self.last_id),
    {
        let mut events: Vec<u128> = Vec::new();
        let mut i: usize = 0;
        while i < self.rows.len()
            invariant
                i <= self.rows@.len(),
                events@.len() == i,
                forall|k: int| 0 <= k < i ==> #[trigger] events@[k] == self.rows@[k].event_id,
                forall|k: int| 0 <= k < i ==> (#[trigger] self.rows@[k]).id <= self.last_id,
                forall|a: int, b: int|
                    0 <= a < b < i ==> (#[trigger] self.rows@[a]).id < (#[trigger] self.rows@[b]).id,
            decreases self.rows@.len() - i,
        {
            if self.rows[i].id > self.last_id {
                return false;
            }
            if i > 0 && self.rows[i - 1].id >= self.rows[i].id {
                assert(!(self.rows@[i - 1].id < self.rows@[i as int].id));
                return false;
            }
            proof {
                assert forall|a: int, b: int| 0 <= a < b < i + 1 implies (#[trigger] self.rows@[a]).id
                    < (#[trigger] self.rows@[b]).id by {
                    if b == i && a < i - 1 {
                        assert(self.rows@[a].id < self.rows@[i - 1].id);
                    }
                }
            }
            events.push(self.rows[i].event_id);
            i += 1;
        }
        let distinct = all_distinct(&events);
        proof {
            if distinct {
                assert forall|a: int, b: int| 0 <= a < b < self.rows@.len() implies (
                #[trigger] self.rows@[a]).id < (#[trigger] self.rows@[b]).id && self.rows@[a].event_id
                    != self.rows@[b].event_id by {
                    assert(events@[a] != events@[b]);
                }
            } else {
                let (a, b) = choose|a: int, b: int|
                    0 <= a < events@.len() && 0 <= b < events@.len() && a != b && events@[a]
                        == events@[b];
                if a < b {
                    assert(self.rows@[a].event_id == self.rows@[b].event_id);
                } else {
                    assert(self.rows@[b].event_id == self.rows@[a].event_id);
                }
            }
        }
        distinct
    }

    fn deliveries_consistent(&self) -> (r: bool)
        ensures
            r == distinct_deliveries(self.deliveries@),
    {
        broadcast use vstd::std_specs::hash::group_hash_axioms;

        let mut lan: HashSet<u128> = HashSet::new();
        let mut hub: HashSet<u128> = HashSet::new();
        let mut hub_delete: HashSet<u128> = HashSet::new();
        let ghost rows = delivery_rows(self.deliveries@);
        let mut i: usize = 0;
        while i < self.deliveries.len()
            invariant
                i <= self.deliveries@.len(),
                rows == delivery_rows(self.deliveries@),
                forall|e: u128| #[trigger]
                    lan@.contains(e) <==> has_key(rows, i as int, (e, Consumer::Lan)),
                forall|e: u128| #[trigger]
                    hub@.contains(e) <==> has_key(rows, i as int, (e, Consumer::Hub)),
                forall|e: u128| #[trigger]
                    hub_delete@.contains(e) <==> has_key(rows, i as int, (e, Consumer::HubDelete)),
                forall|a: int, b: int|
                    0 <= a < b < i ==> (#[trigger] rows[a]).0 != (#[trigger] rows[b]).0,
            decreases self.deliveries@.len() - i,
        {
            let d = self.deliveries[i];
            assert(rows[i as int] == (delivery_key(d), d));
            let known = match d.consumer {
                Consumer::Lan => lan.contains(&d.event_id),
                Consumer::Hub => hub.contains(&d.event_id),
                Consumer::HubDelete => hub_delete.contains(&d.event_id),
            };
            assert(known == has_key(rows, i as int, delivery_key(d)));
            if known {
                proof {
                    let a = choose|a: int| 0 <= a < i && (#[trigger] rows[a]).0 == delivery_key(d);
                    assert(rows[a].0 == rows[i as int].0);
                }
                return false;
            }
            let _ = match d.consumer {
                Consumer::Lan => lan.insert(d.event_id),
                Consumer::Hub => hub.insert(d.event_id),
                Consumer::HubDelete => hub_delete.insert(d.event_id),
            };
            proof {
                assert forall|k: (u128, Consumer)| #[trigger]
                    has_key(rows, i + 1, k) <==> has_key(rows, i as int, k) || k == delivery_key(
                        d,
                    ) by {
                    if has_key(rows, i + 1, k) {
                        let a = choose|a: int| 0 <= a < i + 1 && (#[trigger] rows[a]).0 == k;
                    }
                    if has_key(rows, i as int, k) {
                        let a = choose|a: int| 0 <= a < i && (#[trigger] rows[a]).0 == k;
                        assert(rows[a].0 == k);
                    }
                    assert(rows[i as int].0 == delivery_key(d));
                }
                assert forall|a: int, b: int| 0 <= a < b < i + 1 implies (#[trigger] rows[a]).0 != (
                #[trigger] rows[b]).0 by {
                    if b == i && rows[a].0 == rows[b].0 {
                        assert(has_key(rows, i as int, delivery_key(d)));
                    }
                }
            }
            i += 1;
        }
        true
    }

    /// The queue is in order, its numbers have all been given out, and
    /// deliveries are told apart by event and consumer and are about events of
    /// the queue.
    pub open spec fn wf(&self) -> bool {
        &&& ordered_rows(self.rows@)
        &&& forall|i: int| 0 <= i < self.rows@.len() ==> (#[trigger] self.rows@[i]).id
            <= self.last_id
        &&& distinct_deliveries(self.deliveries@)
        &&& forall|k: int|
            0 <= k < self.deliveries@.len() ==> self.has_event_id(
                (#[trigger] self.deliveries@[k]).event_id,
            )
        &&& self.last_id >= 0
    }

    /// Deliveries by event and consumer.
    pub open spec fn delivered(&self) -> Map<(u128, Consumer), Delivery> {
        delivery_map(self.deliveries@)
    }

    /// Whether an event identity is in use.
    pub open spec fn has_event_id(&self, event_id: u128) -> bool {
        exists|i: int| 0 <= i < self.rows@.len() && (#[trigger] self.rows@[i]).event_id == event_id
    }

    /// An empty queue.
    pub fn new() -> (r: Outbox)
        ensures
            r.wf(),
            r.rows@.len() == 0,
            r.deliveries@.len() == 0,
            r.last_id == 0,
    {
        Outbox { rows: Vec::new(), deliveries: Vec::new(), last_id: 0 }
    }

    fn find_row(&self, id: i64) -> (r: Option<usize>)
        requires
            self.wf(),
        ensures
            match r {
                Some(i) => i < self.rows@.len() && self.rows@[i as int].id == id && row_with(
                    self.rows@,
                    id,
                ) == Some(self.rows@[i as int]),
                None => row_with(self.rows@, id) is None,
            },
    {
        let mut i: usize = self.rows.len();
        assert(self.rows@.take(i as int) =~= self.rows@);
        while i > 0
            invariant
                i <= self.rows@.len(),
                row_with(self.rows@, id) == row_with(self.rows@.take(i as int), id),
            decreases i,
        {
            proof {
                assert(self.rows@.take(i as int).drop_last() =~= self.rows@.take(i - 1));
                assert(self.rows@.take(i as int).last() == self.rows@[i - 1]);
            }
            if self.rows[i - 1].id == id {
                return Some(i - 1);
            }
            i -= 1;
        }
        None
    }

    fn find_delivery(&self, event_id: u128, consumer: Consumer) -> (r: Option<usize>)
        requires
            self.wf(),
        ensures
            match r {
                Some(i) => {
                    &&& i < self.deliveries@.len()
                    &&& delivery_key(self.deliveries@[i as int]) == (event_id, consumer)
                    &&& self.delivered().dom().contains((event_id, consumer))
                    &&& self.delivered()[(event_id, consumer)] == self.deliveries@[i as int]
                },
                None => !self.delivered().dom().contains((event_id, consumer)),
            },
    {
        let ghost rows = delivery_rows(self.deliveries@);
        proof {
            lemma_rows_map(rows);
        }
        let mut i: usize = 0;
        while i < self.deliveries.len()
            invariant
                i <= self.deliveries@.len(),
                self.wf(),
                rows == delivery_rows(self.deliveries@),
                forall|j: int| 0 <= j < i ==> (#[trigger] rows[j]).0 != (event_id, consumer),
            decreases self.deliveries@.len() - i,
        {
            let d = self.deliveries[i];
            if d.event_id == event_id && d.consumer == consumer {
                proof {
                    lemma_rows_map(rows);
                    assert(rows[i as int] == ((event_id, consumer), d));
                }
                return Some(i);
            }
            i += 1;
        }
        None
    }

    /// Whether an event identity is in use.
    pub fn contains_event_id(&self, event_id: u128) -> (r: bool)
        ensures
            r == self.has_event_id(event_id),
    {
        let mut i: usize = 0;
        while i < self.rows.len()
            invariant
                i <= self.rows@.len(),
                forall|j: int| 0 <= j < i ==> (#[trigger] self.rows@[j]).event_id != event_id,
            decreases self.rows@.len() - i,
        {
            if self.rows[i].event_id == event_id {
                assert(self.rows@[i as int].event_id == event_id);
                return true;
            }
            i += 1;
        }
        false
    }

    /// Adds an event at the end, due at once.
    pub fn enqueue(
        &mut self,
        event_id: u128,
        event_type: EventType,
        aggregate_id: ContentId,
        payload: OutboxPayload,
        now_ms: i64,
    )
        requires
            old(self).wf(),
            old(self).last_id < i64::MAX,
            !old(self).has_event_id(event_id),
        ensures
            final(self).wf(),
            final(self).rows@ == old(self).rows@.push(
                OutboxEvent {
                    id: (old(self).last_id + 1) as i64,
                    event_id,
                    event_type,
                    aggregate_id,
                    payload,
                    created_at_ms: now_ms,
                    available_at_ms: now_ms,
                    attempts: 0,
                },
            ),
            final(self).last_id == old(self).last_id + 1,
            final(self).deliveries@ == old(self).deliveries@,
    {
        let id: i64 = self.last_id + 1;
        self.rows.push(
            OutboxEvent {
                id,
                event_id,
                event_type,
                aggregate_id,
                payload,
                created_at_ms: now_ms,
                available_at_ms: now_ms,
                attempts: 0,
            },
        );
        self.last_id = id;
        proof {
            let rows = self.rows@;
            assert forall|i: int, j: int| 0 <= i < j < rows.len() implies (#[trigger] rows[i]).id < (
            #[trigger] rows[j]).id && rows[i].event_id != rows[j].event_id by {
                assert(rows[i] == old(self).rows@[i]);
                if j < old(self).rows@.len() {
                    assert(rows[j] == old(self).rows@[j]);
                }
            }
            assert forall|k: int| 0 <= k < self.deliveries@.len() implies self.has_event_id(
                (#[trigger] self.deliveries@[k]).event_id,
            ) by {
                let e = old(self).deliveries@[k].event_id;
                assert(old(self).has_event_id(e));
                let i = choose|i: int|
                    0 <= i < old(self).rows@.len() && (#[trigger] old(self).rows@[i]).event_id == e;
                assert(rows[i].event_id == e);
            }
        }
    }

    /// Adds the event that tells of a new item.
    pub fn enqueue_committed(&mut self, item: &ContentItem, event_id: u128, now_ms: i64)
        requires
            old(self).wf(),
            old(self).last_id < i64::MAX,
            !old(self).has_event_id(event_id),
        ensures
            final(self).wf(),
            final(self).rows@ == old(self).rows@.push(
                committed_event(*item, event_id, (old(self).last_id + 1) as i64, now_ms),
            ),
            final(self).last_id == old(self).last_id + 1,
            final(self).deliveries@ == old(self).deliveries@,
    {
        let payload = OutboxPayload {
            aggregate_id: item.id,
            origin_device_id: Some(item.origin_device_id),
            kind: Some(item.kind),
            from_remote: item.flags.from_remote,
        };
        self.enqueue(event_id, EventType::Committed, item.id, payload, now_ms);
    }

    /// Adds the event that tells that an item was removed.
    pub fn enqueue_deleted(&mut self, id: ContentId, event_id: u128, now_ms: i64)
        requires
            old(self).wf(),
            old(self).last_id < i64::MAX,
            !old(self).has_event_id(event_id),
        ensures
            final(self).wf(),
            final(self).rows@ == old(self).rows@.push(
                deleted_event(id, event_id, (old(self).last_id + 1) as i64, now_ms),
            ),
            final(self).last_id == old(self).last_id + 1,
            final(self).deliveries@ == old(self).deliveries@,
    {
        let payload = OutboxPayload {
            aggregate_id: id,
            origin_device_id: None,
            kind: None,
            from_remote: false,
        };
        self.enqueue(event_id, EventType::Deleted, id, payload, now_ms);
    }

    /// The first events that are available at a time, whoever they are for.
    pub fn pending(&self, event_type: Option<EventType>, limit: u32, now_ms: i64) -> (r: Vec<
        OutboxEvent,
    >)
        ensures
            r@ == first_n(available_rows(self.rows@, event_type, now_ms), page_limit(limit)),
    {
        let n: usize = clamp_limit(limit);
        let mut out: Vec<OutboxEvent> = Vec::new();
        let mut i: usize = 0;
        assert(self.rows@.take(0).len() == 0);
        while i < self.rows.len()
            invariant
                i <= self.rows@.len(),
                n == page_limit(limit),
                out@ == first_n(
                    available_rows(self.rows@.take(i as int), event_type, now_ms),
                    n as nat,
                ),
            decreases self.rows@.len() - i,
        {
            let row = self.rows[i];
            let ghost before = available_rows(self.rows@.take(i as int), event_type, now_ms);
            proof {
                assert(self.rows@.take(i + 1).drop_last() =~= self.rows@.take(i as int));
                assert(self.rows@.take(i + 1).last() == row);
            }
            let wanted = match event_type {
                Some(t) => t == row.event_type,
                None => true,
            };
            if row.available_at_ms <= now_ms && wanted {
                if out.len() < n {
                    out.push(row);
                    assert(out@ =~= before.push(row));
                } else {
                    assert(before.push(row).take(n as int) =~= first_n(before, n as nat));
                }
            }
            i += 1;
        }
        assert(self.rows@.take(i as int) =~= self.rows@);
        out
    }

    /// The first events of a type to be delivered to a consumer at a time.
    pub fn pending_for(
        &self,
        event_type: EventType,
        consumer: Consumer,
        limit: u32,
        now_ms: i64,
    ) -> (r: Vec<OutboxEvent>)
        requires
            self.wf(),
        ensures
            r@ == first_n(
                due_rows(self.rows@, self.delivered(), event_type, consumer, now_ms),
                page_limit(limit),
            ),
    {
        let n: usize = clamp_limit(limit);
        let mut out: Vec<OutboxEvent> = Vec::new();
        let mut i: usize = 0;
        let ghost ds = self.delivered();
        assert(self.rows@.take(0).len() == 0);
        while i < self.rows.len()
            invariant
                i <= self.rows@.len(),
                n == page_limit(limit),
                self.wf(),
                ds == self.delivered(),
                out@ == first_n(
                    due_rows(self.rows@.take(i as int), ds, event_type, consumer, now_ms),
                    n as nat,
                ),
            decreases self.rows@.len() - i,
        {
            let row = self.rows[i];
            let ghost before = due_rows(
                self.rows@.take(i as int),
                ds,
                event_type,
                consumer,
                now_ms,
            );
            proof {
                assert(self.rows@.take(i + 1).drop_last() =~= self.rows@.take(i as int));
                assert(self.rows@.take(i + 1).last() == row);
            }
            if row.event_type == event_type {
                let (due, attempts): (bool, u64) = match self.find_delivery(row.event_id, consumer) {
                    Some(k) => {
                        let d = self.deliveries[k];
                        (d.acked_at_ms.is_none() && d.available_at_ms <= now_ms, d.attempts)
                    },
                    None => (row.available_at_ms <= now_ms, 0),
                };
                if due {
                    let seen = OutboxEvent { attempts, ..row };
                    assert(seen == seen_by(row, ds, consumer));
                    if out.len() < n {
                        out.push(seen);
                        assert(out@ =~= before.push(seen));
                    } else {
                        assert(before.push(seen).take(n as int) =~= first_n(before, n as nat));
                    }
                }
            }
            i += 1;
        }
        assert(self.rows@.take(i as int) =~= self.rows@);
        out
    }

    /// Notes that a consumer has dealt with an event. Tells whether it had not
    /// done so before.
    pub fn ack_consumer(&mut self, id: i64, consumer: Consumer, now_ms: i64) -> (r: bool)
        requires
            old(self).wf(),
        ensures
            final(self).wf(),
            final(self).rows@ == old(self).rows@,
            final(self).last_id == old(self).last_id,
            r == ack_counts(old(self).rows@, old(self).delivered(), id, consumer),
            final(self).delivered() == acked(
                old(self).rows@,
                old(self).delivered(),
                id,
                consumer,
                now_ms,
            ),
    {
        let row = match self.find_row(id) {
            Some(i) => self.rows[i],
            None => return false,
        };
        match self.find_delivery(row.event_id, consumer) {
            Some(k) => {
                let d = self.deliveries[k];
                if d.acked_at_ms.is_some() {
                    return false;
                }
                let next = Delivery { acked_at_ms: Some(now_ms), ..d };
                proof {
                    lemma_delivery_update(self.deliveries@, k as int, next);
                }
                self.deliveries.set(k, next);
                true
            },
            None => {
                let next = Delivery {
                    event_id: row.event_id,
                    consumer,
                    acked_at_ms: Some(now_ms),
                    available_at_ms: now_ms,
                    attempts: 0,
                };
                proof {
                    lemma_delivery_push(self.deliveries@, next);
                }
                self.deliveries.push(next);
                true
            },
        }
    }

    /// Puts the delivery of an event to a consumer off, unless the consumer has
    /// dealt with it.
    pub fn retry_consumer(&mut self, id: i64, consumer: Consumer, available_at_ms: i64)
        requires
            old(self).wf(),
        ensures
            final(self).wf(),
            final(self).rows@ == old(self).rows@,
            final(self).last_id == old(self).last_id,
            final(self).delivered() == retried(
                old(self).rows@,
                old(self).delivered(),
                id,
                consumer,
                available_at_ms,
            ),
    {
        let row = match self.find_row(id) {
            Some(i) => self.rows[i],
            None => return ,
        };
        match self.find_delivery(row.event_id, consumer) {
            Some(k) => {
                let d = self.deliveries[k];
                if d.acked_at_ms.is_some() {
                    return ;
                }
                let next = Delivery { attempts: d.attempts.saturating_add(1), available_at_ms, ..d };
                proof {
                    lemma_delivery_update(self.deliveries@, k as int, next);
                }
                self.deliveries.set(k, next);
            },
            None => {
                let next = Delivery {
                    event_id: row.event_id,
                    consumer,
                    acked_at_ms: None,
                    available_at_ms,
                    attempts: 1,
                };
                proof {
                    lemma_delivery_push(self.deliveries@, next);
                }
                self.deliveries.push(next);
            },
        }
    }

    /// Whether a consumer has still to deal with an event of a type about an
    /// item.
    pub fn latest_unacked(
        &self,
        event_type: EventType,
        aggregate_id: ContentId,
        consumer: Consumer,
    ) -> (r: Option<i64>)
        requires
            self.wf(),
        ensures
            r == unacked(self.rows@, self.delivered(), event_type, aggregate_id, consumer),
    {
        let mut i: usize = self.rows.len();
        let ghost ds = self.delivered();
        assert(self.rows@.take(i as int) =~= self.rows@);
        while i > 0
            invariant
                i <= self.rows@.len(),
                self.wf(),
                ds == self.delivered(),
                unacked(self.rows@, ds, event_type, aggregate_id, consumer) == unacked(
                    self.rows@.take(i as int),
                    ds,
                    event_type,
                    aggregate_id,
                    consumer,
                ),
            decreases i,
        {
            proof {
                assert(self.rows@.take(i as int).drop_last() =~= self.rows@.take(i - 1));
                assert(self.rows@.take(i as int).last() == self.rows@[i - 1]);
            }
            let row = self.rows[i - 1];
            if row.event_type == event_type && row.aggregate_id == aggregate_id {
                let done = match self.find_delivery(row.event_id, consumer) {
                    Some(k) => self.deliveries[k].acked_at_ms.is_some(),
                    None => false,
                };
                if !done {
                    return Some(row.id);
                }
            }
            i -= 1;
        }
        None
    }
}

/// Whether a consumer has dealt with an event.
pub open spec fn is_acked(
    ds: Map<(u128, Consumer), Delivery>,
    event_id: u128,
    consumer: Consumer,
) -> bool {
    ds.dom().contains((event_id, consumer)) && ds[(event_id, consumer)].acked_at_ms is Some
}

/// Whether an acknowledgement is the first for an event that exists.
pub open spec fn ack_counts(
    rows: Seq<OutboxEvent>,
    ds: Map<(u128, Consumer), Delivery>,
    id: i64,
    consumer: Consumer,
) -> bool {
    row_with(rows, id) is Some && !is_acked(ds, row_with(rows, id)->0.event_id, consumer)
}

/// The deliveries after an acknowledgement.
pub open spec fn acked(
    rows: Seq<OutboxEvent>,
    ds: Map<(u128, Consumer), Delivery>,
    id: i64,
    consumer: Consumer,
    now_ms: i64,
) -> Map<(u128, Consumer), Delivery> {
    if !ack_counts(rows, ds, id, consumer) {
        ds
    } else {
        let event_id = row_with(rows, id)->0.event_id;
        let key = (event_id, consumer);
        if ds.dom().contains(key) {
            ds.insert(key, Delivery { acked_at_ms: Some(now_ms), ..ds[key] })
        } else {
            ds.insert(
                key,
                Delivery {
                    event_id,
                    consumer,
                    acked_at_ms: Some(now_ms),
                    available_at_ms: now_ms,
                    attempts: 0,
                },
            )
        }
    }
}

/// A count that stops at its largest value.
pub open spec fn one_more(n: u64) -> u64 {
    if n == u64::MAX {
        n
    } else {
        (n + 1) as u64
    }
}

/// The deliveries after one was put off.
pub open spec fn retried(
    rows: Seq<OutboxEvent>,
    ds: Map<(u128, Consumer), Delivery>,
    id: i64,
    consumer: Consumer,
    available_at_ms: i64,
) -> Map<(u128, Consumer), Delivery> {
    if !ack_counts(rows, ds, id, consumer) {
        ds
    } else {
        let event_id = row_with(rows, id)->0.event_id;
        let key = (event_id, consumer);
        if ds.dom().contains(key) {
            ds.insert(
                key,
                Delivery { attempts: one_more(ds[key].attempts), available_at_ms, ..ds[key] },
            )
        } else {
            ds.insert(
                key,
                Delivery { event_id, consumer, acked_at_ms: None, available_at_ms, attempts: 1 },
            )
        }
    }
}

/// The latest event of a type about an item that a consumer has still to deal
/// with.
pub open spec fn unacked(
    rows: Seq<OutboxEvent>,
    ds: Map<(u128, Consumer), Delivery>,
    event_type: EventType,
    aggregate_id: ContentId,
    consumer: Consumer,
) -> Option<i64>
    decreases rows.len(),
{
    if rows.len() == 0 {
        None
    } else {
        let row = rows.last();
        if row.event_type == event_type && row.aggregate_id == aggregate_id && !is_acked(
            ds,
            row.event_id,
            consumer,
        ) {
            Some(row.id)
        } else {
            unacked(rows.drop_last(), ds, event_type, aggregate_id, consumer)
        }
    }
}

/// Whether a consumer has still to deal with an event, which is of a type and
/// about an item.
pub open spec fn awaits(
    row: OutboxEvent,
    ds: Map<(u128, Consumer), Delivery>,
    event_type: EventType,
    aggregate_id: ContentId,
    consumer: Consumer,
) -> bool {
    row.event_type == event_type && row.aggregate_id == aggregate_id && !is_acked(
        ds,
        row.event_id,
        consumer,
    )
}

/// Nothing about an item is left to deal with exactly if no event is.
pub proof fn lemma_unacked(
    rows: Seq<OutboxEvent>,
    ds: Map<(u128, Consumer), Delivery>,
    event_type: EventType,
    aggregate_id: ContentId,
    consumer: Consumer,
)
    ensures
        unacked(rows, ds, event_type, aggregate_id, consumer) is None <==> forall|i: int|
            0 <= i < rows.len() ==> !awaits(
                #[trigger] rows[i],
                ds,
                event_type,
                aggregate_id,
                consumer,
            ),
    decreases rows.len(),
{
    if rows.len() > 0 {
        let shorter = rows.drop_last();
        lemma_unacked(shorter, ds, event_type, aggregate_id, consumer);
        let last = rows.len() - 1;
        if awaits(rows[last], ds, event_type, aggregate_id, consumer) {
        } else {
            assert forall|i: int| 0 <= i < shorter.len() implies shorter[i] == #[trigger] rows[i] by {}
            if unacked(rows, ds, event_type, aggregate_id, consumer) is Some {
                let i = choose|i: int|
                    0 <= i < shorter.len() && awaits(
                        #[trigger] shorter[i],
                        ds,
                        event_type,
                        aggregate_id,
                        consumer,
                    );
                assert(awaits(rows[i], ds, event_type, aggregate_id, consumer));
            }
        }
    }
}

/// Nothing about an item is handed to a consumer that has dealt with every event
/// about it.
pub proof fn lemma_nothing_due(
    rows: Seq<OutboxEvent>,
    ds: Map<(u128, Consumer), Delivery>,
    event_type: EventType,
    aggregate_id: ContentId,
    consumer: Consumer,
    now_ms: i64,
)
    requires
        unacked(rows, ds, event_type, aggregate_id, consumer) is None,
    ensures
        forall|j: int|
            0 <= j < due_rows(rows, ds, event_type, consumer, now_ms).len() ==> (
            #[trigger] due_rows(rows, ds, event_type, consumer, now_ms)[j]).aggregate_id
                != aggregate_id,
    decreases rows.len(),
{
    if rows.len() > 0 {
        lemma_nothing_due(rows.drop_last(), ds, event_type, aggregate_id, consumer, now_ms);
    }
}

/// The event with a number is the one in the queue that has it.
pub proof fn lemma_row_with(rows: Seq<OutboxEvent>, i: int)
    requires
        ordered_rows(rows),
        0 <= i < rows.len(),
    ensures
        row_with(rows, rows[i].id) == Some(rows[i]),
    decreases rows.len(),
{
    if i < rows.len() - 1 {
        let shorter = rows.drop_last();
        assert(rows[i].id < rows.last().id);
        assert forall|a: int, b: int| 0 <= a < b < shorter.len() implies (#[trigger] shorter[a]).id
            < (#[trigger] shorter[b]).id && shorter[a].event_id != shorter[b].event_id by {
            assert(shorter[a] == rows[a] && shorter[b] == rows[b]);
        }
        lemma_row_with(shorter, i);
    }
}

/// A consumer's acknowledgement changes nothing for another consumer: it has the
/// same events to deal with, with the same counts of attempts.
pub proof fn ack_leaves_other_consumers(
    rows: Seq<OutboxEvent>,
    all: Seq<OutboxEvent>,
    ds: Map<(u128, Consumer), Delivery>,
    id: i64,
    consumer: Consumer,
    now_ms: i64,
    event_type: EventType,
    other: Consumer,
    later_ms: i64,
)
    requires
        other != consumer,
    ensures
        due_rows(rows, acked(all, ds, id, consumer, now_ms), event_type, other, later_ms)
            == due_rows(rows, ds, event_type, other, later_ms),
    decreases rows.len(),
{
    if rows.len() > 0 {
        ack_leaves_other_consumers(
            rows.drop_last(),
            all,
            ds,
            id,
            consumer,
            now_ms,
            event_type,
            other,
            later_ms,
        );
    }
}

/// Putting a delivery off changes nothing for another consumer.
pub proof fn retry_leaves_other_consumers(
    rows: Seq<OutboxEvent>,
    all: Seq<OutboxEvent>,
    ds: Map<(u128, Consumer), Delivery>,
    id: i64,
    consumer: Consumer,
    available_at_ms: i64,
    event_type: EventType,
    other: Consumer,
    later_ms: i64,
)
    requires
        other != consumer,
    ensures
        due_rows(rows, retried(all, ds, id, consumer, available_at_ms), event_type, other, later_ms)
            == due_rows(rows, ds, event_type, other, later_ms),
    decreases rows.len(),
{
    if rows.len() > 0 {
        retry_leaves_other_consumers(
            rows.drop_last(),
            all,
            ds,
            id,
            consumer,
            available_at_ms,
            event_type,
            other,
            later_ms,
        );
    }
}

/// An event that a consumer has acknowledged is never handed to it again, and a
/// second acknowledgement does not count.
pub proof fn ack_is_final(
    rows: Seq<OutboxEvent>,
    ds: Map<(u128, Consumer), Delivery>,
    id: i64,
    consumer: Consumer,
    now_ms: i64,
    event_type: EventType,
    later_ms: i64,
)
    requires
        row_with(rows, id) is Some,
    ensures
        ({
            let after = acked(rows, ds, id, consumer, now_ms);
            &&& !is_due(row_with(rows, id)->0, after, event_type, consumer, later_ms)
            &&& !ack_counts(rows, after, id, consumer)
            &&& acked(rows, after, id, consumer, later_ms) == after
        }),
{
}

/// A delivery that was put off is not due before the time it was put off to,
/// and is due then.
pub proof fn retry_waits(
    rows: Seq<OutboxEvent>,
    ds: Map<(u128, Consumer), Delivery>,
    id: i64,
    consumer: Consumer,
    available_at_ms: i64,
    later_ms: i64,
)
    requires
        ack_counts(rows, ds, id, consumer),
    ensures
        ({
            let row = row_with(rows, id)->0;
            let after = retried(rows, ds, id, consumer, available_at_ms);
            is_due(row, after, row.event_type, consumer, later_ms) <==> available_at_ms <= later_ms
        }),
{
}

/// What is handed to a consumer are events of the type it asked for, in the
/// order they were added, each from the queue.
pub proof fn due_rows_have_the_type(
    rows: Seq<OutboxEvent>,
    ds: Map<(u128, Consumer), Delivery>,
    event_type: EventType,
    consumer: Consumer,
    now_ms: i64,
)
    requires
        ordered_rows(rows),
    ensures
        ({
            let due = due_rows(rows, ds, event_type, consumer, now_ms);
            &&& forall|i: int| 0 <= i < due.len() ==> (#[trigger] due[i]).event_type == event_type
            &&& forall|i: int|
                0 <= i < due.len() ==> exists|j: int|
                    0 <= j < rows.len() && #[trigger] rows[j].id == (#[trigger] due[i]).id
            &&& forall|i: int, j: int|
                0 <= i < j < due.len() ==> (#[trigger] due[i]).id < (#[trigger] due[j]).id
        }),
    decreases rows.len(),
{
    let due = due_rows(rows, ds, event_type, consumer, now_ms);
    if rows.len() > 0 {
        let shorter = rows.drop_last();
        assert(ordered_rows(shorter)) by {
            assert forall|i: int, j: int| 0 <= i < j < shorter.len() implies (#[trigger] shorter[i]).id
                < (#[trigger] shorter[j]).id && shorter[i].event_id != shorter[j].event_id by {
                assert(shorter[i] == rows[i] && shorter[j] == rows[j]);
            }
        }
        due_rows_have_the_type(shorter, ds, event_type, consumer, now_ms);
        let before = due_rows(shorter, ds, event_type, consumer, now_ms);
        let last = rows.len() - 1;
        assert forall|i: int| 0 <= i < due.len() implies exists|j: int|
            0 <= j < rows.len() && #[trigger] rows[j].id == (#[trigger] due[i]).id by {
            if i < before.len() {
                assert(due[i] == before[i]);
                let j = choose|j: int|
                    0 <= j < shorter.len() && #[trigger] shorter[j].id == before[i].id;
                assert(rows[j].id == due[i].id);
            } else {
                assert(rows[last].id == due[i].id);
            }
        }
        assert forall|i: int, j: int| 0 <= i < j < due.len() implies (#[trigger] due[i]).id < (
        #[trigger] due[j]).id by {
            assert(due[i] == before[i]);
            if j < before.len() {
                assert(due[j] == before[j]);
            } else {
                let k = choose|k: int|
                    0 <= k < shorter.len() && #[trigger] shorter[k].id == before[i].id;
                assert(shorter[k] == rows[k]);
                assert(rows[k].id < rows[last].id);
            }
        }
    }
}

/// What is handed to a consumer at a time are all events of the type it asked for that
/// it has not dealt with and that are due, in the order they were added, each as it
/// was added but with the number of attempts that the consumer has made. An event that
/// the consumer has put off is due at the time it was put off to, another at its own.
pub proof fn due_events_are_handed_out(
    rows: Seq<OutboxEvent>,
    ds: Map<(u128, Consumer), Delivery>,
    event_type: EventType,
    consumer: Consumer,
    now_ms: i64,
)
    ensures
        due_rows(rows, ds, event_type, consumer, now_ms) == rows.filter(
            |row: OutboxEvent|
                row.event_type == event_type && (if ds.dom().contains((row.event_id, consumer)) {
                    ds[(row.event_id, consumer)].acked_at_ms is None && ds[(
                        row.event_id,
                        consumer,
                    )].available_at_ms <= now_ms
                } else {
                    row.available_at_ms <= now_ms
                }),
        ).map_values(
            |row: OutboxEvent|
                OutboxEvent {
                    attempts: if ds.dom().contains((row.event_id, consumer)) {
                        ds[(row.event_id, consumer)].attempts
                    } else {
                        0
                    },
                    ..row
                },
        ),
    decreases rows.len(),
{
    reveal(Seq::filter);
    let is = |row: OutboxEvent|
        row.event_type == event_type && (if ds.dom().contains((row.event_id, consumer)) {
            ds[(row.event_id, consumer)].acked_at_ms is None && ds[(
                row.event_id,
                consumer,
            )].available_at_ms <= now_ms
        } else {
            row.available_at_ms <= now_ms
        });
    let seen = |row: OutboxEvent|
        OutboxEvent {
            attempts: if ds.dom().contains((row.event_id, consumer)) {
                ds[(row.event_id, consumer)].attempts
            } else {
                0
            },
            ..row
        };
    if rows.len() == 0 {
        assert(rows.filter(is).map_values(seen) =~= Seq::<OutboxEvent>::empty());
    } else {
        let shorter = rows.drop_last();
        due_events_are_handed_out(shorter, ds, event_type, consumer, now_ms);
        let before = shorter.filter(is);
        assert(before.push(rows.last()).map_values(seen) =~= before.map_values(seen).push(
            seen(rows.last()),
        ));
    }
}

/// What is available at a time are all events of the type that was asked for, if one
/// was, whose time has come, in the order they were added.
pub proof fn available_events_are_handed_out(
    rows: Seq<OutboxEvent>,
    event_type: Option<EventType>,
    now_ms: i64,
)
    ensures
        available_rows(rows, event_type, now_ms) == rows.filter(
            |row: OutboxEvent|
                row.available_at_ms <= now_ms && (event_type is None || event_type == Some(
                    row.event_type,
                )),
        ),
    decreases rows.len(),
{
    reveal(Seq::filter);
    if rows.len() > 0 {
        available_events_are_handed_out(rows.drop_last(), event_type, now_ms);
    }
}

/// A page begins at the front and has as many entries as it may, or all there are.
pub proof fn a_page_is_the_front<T>(s: Seq<T>, n: nat)
    ensures
        s.len() <= n ==> first_n(s, n) == s,
        s.len() > n ==> first_n(s, n).len() == n,
        forall|i: int| 0 <= i < first_n(s, n).len() ==> #[trigger] first_n(s, n)[i] == s[i],
{
}

/// The event of a new item is about that item, of whatever kind, says where it comes
/// from, and is due at once for everybody. The event of a removed one is about it too.
pub proof fn events_tell_of_their_items(
    item: ContentItem,
    event_id: u128,
    number: i64,
    now_ms: i64,
    consumer: Consumer,
    ds: Map<(u128, Consumer), Delivery>,
)
    requires
        !ds.dom().contains((event_id, consumer)),
    ensures
        ({
            let added = committed_event(item, event_id, number, now_ms);
            let gone = deleted_event(item.id, event_id, number, now_ms);
            &&& added.id == number && gone.id == number
            &&& added.event_id == event_id && gone.event_id == event_id
            &&& added.event_type == EventType::Committed && gone.event_type == EventType::Deleted
            &&& added.aggregate_id == item.id && gone.aggregate_id == item.id
            &&& added.payload.aggregate_id == item.id && gone.payload.aggregate_id == item.id
            &&& added.payload.origin_device_id == Some(item.origin_device_id)
            &&& added.payload.kind == Some(item.kind)
            &&& added.payload.from_remote == item.flags.from_remote
            &&& gone.payload.origin_device_id is None && gone.payload.kind is None
            &&& !gone.payload.from_remote
            &&& added.created_at_ms == now_ms && gone.created_at_ms == now_ms
            &&& added.attempts == 0 && gone.attempts == 0
            &&& forall|t: i64|
                #[trigger] is_due(added, ds, EventType::Committed, consumer, t) <==> now_ms <= t
            &&& forall|t: i64|
                #[trigger] is_due(gone, ds, EventType::Deleted, consumer, t) <==> now_ms <= t
        }),
{
}

/// An acknowledgement notes that the consumer has dealt with the event and when. It
/// counts the first time alone, keeps the attempts, and leaves every other delivery as
/// it was.
pub proof fn acknowledgement_is_noted(
    rows: Seq<OutboxEvent>,
    ds: Map<(u128, Consumer), Delivery>,
    i: int,
    consumer: Consumer,
    now_ms: i64,
)
    requires
        ordered_rows(rows),
        0 <= i < rows.len(),
    ensures
        ({
            let key = (rows[i].event_id, consumer);
            let after = acked(rows, ds, rows[i].id, consumer, now_ms);
            let known = ds.dom().contains(key);
            let done = known && ds[key].acked_at_ms is Some;
            &&& ack_counts(rows, ds, rows[i].id, consumer) == !done
            &&& after.dom() == ds.dom().insert(key)
            &&& after[key].acked_at_ms == (if done {
                ds[key].acked_at_ms
            } else {
                Some(now_ms)
            })
            &&& after[key].attempts == (if known {
                ds[key].attempts
            } else {
                0
            })
            &&& known ==> after[key].available_at_ms == ds[key].available_at_ms
            &&& forall|k: (u128, Consumer)| k != key && ds.dom().contains(k) ==> #[trigger] after[k]
                == ds[k]
        }),
{
    lemma_row_with(rows, i);
    let key = (rows[i].event_id, consumer);
    assert(acked(rows, ds, rows[i].id, consumer, now_ms).dom() =~= ds.dom().insert(key));
}

/// Putting a delivery off counts one attempt more and notes the time it was put off
/// to, unless the consumer has dealt with the event, when nothing changes. Every other
/// delivery is as it was.
pub proof fn putting_off_is_noted(
    rows: Seq<OutboxEvent>,
    ds: Map<(u128, Consumer), Delivery>,
    i: int,
    consumer: Consumer,
    available_at_ms: i64,
)
    requires
        ordered_rows(rows),
        0 <= i < rows.len(),
    ensures
        ({
            let key = (rows[i].event_id, consumer);
            let after = retried(rows, ds, rows[i].id, consumer, available_at_ms);
            let known = ds.dom().contains(key);
            let done = known && ds[key].acked_at_ms is Some;
            &&& done ==> after == ds
            &&& !done ==> {
                &&& after.dom() == ds.dom().insert(key)
                &&& after[key].acked_at_ms is None
                &&& after[key].available_at_ms == available_at_ms
                &&& !known ==> after[key].attempts == 1
                &&& known && ds[key].attempts < u64::MAX ==> after[key].attempts
                    == ds[key].attempts + 1
                &&& forall|k: (u128, Consumer)|
                    k != key && ds.dom().contains(k) ==> #[trigger] after[k] == ds[k]
            }
        }),
{
    lemma_row_with(rows, i);
    let key = (rows[i].event_id, consumer);
    let done = ds.dom().contains(key) && ds[key].acked_at_ms is Some;
    if !done {
        assert(retried(rows, ds, rows[i].id, consumer, available_at_ms).dom() =~= ds.dom().insert(
            key,
        ));
    }
}

/// A number that no event has changes nothing.
pub proof fn unknown_numbers_change_nothing(
    rows: Seq<OutboxEvent>,
    ds: Map<(u128, Consumer), Delivery>,
    id: i64,
    consumer: Consumer,
    time_ms: i64,
)
    requires
        forall|i: int| 0 <= i < rows.len() ==> (#[trigger] rows[i]).id != id,
    ensures
        !ack_counts(rows, ds, id, consumer),
        acked(rows, ds, id, consumer, time_ms) == ds,
        retried(rows, ds, id, consumer, time_ms) == ds,
{
    lemma_no_row(rows, id);
}

proof fn lemma_no_row(rows: Seq<OutboxEvent>, id: i64)
    requires
        forall|i: int| 0 <= i < rows.len() ==> (#[trigger] rows[i]).id != id,
    ensures
        row_with(rows, id) is None,
    decreases rows.len(),
{
    if rows.len() > 0 {
        let shorter = rows.drop_last();
        assert(rows[rows.len() - 1].id != id);
        assert forall|i: int| 0 <= i < shorter.len() implies (#[trigger] shorter[i]).id != id by {
            assert(shorter[i] == rows[i]);
        }
        lemma_no_row(shorter, id);
    }
}

/// An event about an item is waited for just if there is one of the type that the
/// consumer has not acknowledged; the latest such event is the one that is named.
pub proof fn waiting_event_is_the_latest(
    rows: Seq<OutboxEvent>,
    ds: Map<(u128, Consumer), Delivery>,
    event_type: EventType,
    aggregate_id: ContentId,
    consumer: Consumer,
    i: int,
)
    requires
        0 <= i < rows.len(),
        rows[i].event_type == event_type,
        rows[i].aggregate_id == aggregate_id,
        !(ds.dom().contains((rows[i].event_id, consumer)) && ds[(
            rows[i].event_id,
            consumer,
        )].acked_at_ms is Some),
        forall|j: int|
            i < j < rows.len() ==> !((#[trigger] rows[j]).event_type == event_type
                && rows[j].aggregate_id == aggregate_id && !(ds.dom().contains(
                (rows[j].event_id, consumer),
            ) && ds[(rows[j].event_id, consumer)].acked_at_ms is Some)),
    ensures
        unacked(rows, ds, event_type, aggregate_id, consumer) == Some(rows[i].id),
    decreases rows.len(),
{
    let last = rows.len() - 1;
    if i < last {
        let shorter = rows.drop_last();
        assert(rows[last] == rows.last());
        assert forall|j: int| i < j < shorter.len() implies !((#[trigger] shorter[j]).event_type
            == event_type && shorter[j].aggregate_id == aggregate_id && !(ds.dom().contains(
            (shorter[j].event_id, consumer),
        ) && ds[(shorter[j].event_id, consumer)].acked_at_ms is Some)) by {
            assert(shorter[j] == rows[j]);
        }
        waiting_event_is_the_latest(shorter, ds, event_type, aggregate_id, consumer, i);
    }
}


/// A page has as many events as were asked for, but no more than 200, and 50 if none were
/// asked for.
pub proof fn pages_have_their_length(limit: u32, r: usize)
    requires
        call_ensures(clamp_limit, (limit,), r),
    ensures
        limit == 0 ==> r == 50,
        1 <= limit <= 200 ==> r == limit,
        limit > 200 ==> r == 200,
{
}

/// What is known of a delivery is what was noted of it.
pub proof fn deliveries_are_known(o: Outbox, k: int, event_id: u128, consumer: Consumer)
    requires
        o.wf(),
        0 <= k < o.deliveries@.len(),
    ensures
        o.delivered()[(o.deliveries@[k].event_id, o.deliveries@[k].consumer)] == o.deliveries@[k],
        o.delivered().dom().contains((event_id, consumer)) <==> exists|i: int|
            0 <= i < o.deliveries@.len() && (#[trigger] o.deliveries@[i]).event_id == event_id
                && o.deliveries@[i].consumer == consumer,
{
    let rows = delivery_rows(o.deliveries@);
    crate::table::lemma_rows_map(rows);
    assert(rows[k].0 == (o.deliveries@[k].event_id, o.deliveries@[k].consumer));
    if o.delivered().dom().contains((event_id, consumer)) {
        let i = choose|i: int| 0 <= i < rows.len() && (#[trigger] rows[i]).0 == (event_id, consumer);
        assert(o.deliveries@[i].event_id == event_id);
    }
    if exists|i: int|
        0 <= i < o.deliveries@.len() && (#[trigger] o.deliveries@[i]).event_id == event_id
            && o.deliveries@[i].consumer == consumer {
        let i = choose|i: int|
            0 <= i < o.deliveries@.len() && (#[trigger] o.deliveries@[i]).event_id == event_id
                && o.deliveries@[i].consumer == consumer;
        assert(rows[i].0 == (event_id, consumer));
    }
}

/// A consumer gets a page, `r`, of the events that are due for it, from the first on: all
/// of the type it asked for that it has not dealt with and whose time has come, whether or
/// not it was put off before.
pub proof fn consumers_get_what_is_due(
    o: Outbox,
    event_type: EventType,
    consumer: Consumer,
    limit: u32,
    now_ms: i64,
    r: Vec<OutboxEvent>,
    i: int,
)
    requires
        o.wf(),
        call_ensures(Outbox::pending_for, (&o, event_type, consumer, limit, now_ms), r),
    ensures
        ({
            let ds = o.delivered();
            let due = o.rows@.filter(
                |row: OutboxEvent|
                    row.event_type == event_type && (if ds.dom().contains(
                        (row.event_id, consumer),
                    ) {
                        ds[(row.event_id, consumer)].acked_at_ms is None && ds[(
                            row.event_id,
                            consumer,
                        )].available_at_ms <= now_ms
                    } else {
                        row.available_at_ms <= now_ms
                    }),
            );
            &&& r@.len() <= due.len()
            &&& 1 <= limit <= 200 && due.len() >= limit ==> r@.len() == limit
            &&& limit > 200 && due.len() >= 200 ==> r@.len() == 200
            &&& 1 <= limit && due.len() <= limit && due.len() <= 200 ==> r@.len() == due.len()
            &&& 0 <= i < r@.len() ==> {
                &&& r@[i].id == due[i].id && r@[i].event_id == due[i].event_id
                &&& r@[i].event_type == event_type && r@[i].aggregate_id == due[i].aggregate_id
                &&& r@[i].payload == due[i].payload
                &&& ds.dom().contains((due[i].event_id, consumer)) ==> r@[i].attempts == ds[(
                    due[i].event_id,
                    consumer,
                )].attempts
                &&& !ds.dom().contains((due[i].event_id, consumer)) ==> r@[i].attempts == 0
            }
        }),
{
    broadcast use vstd::seq_lib::group_filter_ensures;

    due_events_are_handed_out(o.rows@, o.delivered(), event_type, consumer, now_ms);
    let all = due_rows(o.rows@, o.delivered(), event_type, consumer, now_ms);
    a_page_is_the_front(all, page_limit(limit));
    if 0 <= i < r@.len() {
        assert(r@[i] == all[i]);
    }
}

/// An acknowledgement counts, `r`, just if there is such an event and the consumer has not
/// dealt with it; afterwards it has, and nothing else has changed.
pub proof fn acknowledgements_count_once(
    o: &mut Outbox,
    i: int,
    consumer: Consumer,
    now_ms: i64,
    r: bool,
    key: (u128, Consumer),
)
    requires
        old(o).wf(),
        0 <= i < old(o).rows@.len(),
        call_ensures(Outbox::ack_consumer, (o, old(o).rows@[i].id, consumer, now_ms), r),
    ensures
        ({
            let mine = (old(o).rows@[i].event_id, consumer);
            let was = old(o).delivered();
            let is = final(o).delivered();
            &&& final(o).rows@ == old(o).rows@
            &&& r <==> !(was.dom().contains(mine) && was[mine].acked_at_ms is Some)
            &&& is.dom().contains(mine) && is[mine].acked_at_ms is Some
            &&& r ==> is[mine].acked_at_ms == Some(now_ms)
            &&& key != mine ==> is.dom().contains(key) == was.dom().contains(key)
            &&& key != mine && was.dom().contains(key) ==> is[key] == was[key]
        }),
{
    acknowledgement_is_noted(old(o).rows@, old(o).delivered(), i, consumer, now_ms);
}

/// An event that is put off waits for its consumer until the time that is given, with one
/// attempt more, unless the consumer has dealt with it; nothing else changes.
pub proof fn events_are_put_off(
    o: &mut Outbox,
    i: int,
    consumer: Consumer,
    available_at_ms: i64,
    r: (),
    key: (u128, Consumer),
)
    requires
        old(o).wf(),
        0 <= i < old(o).rows@.len(),
        call_ensures(Outbox::retry_consumer, (o, old(o).rows@[i].id, consumer, available_at_ms), r),
    ensures
        ({
            let mine = (old(o).rows@[i].event_id, consumer);
            let was = old(o).delivered();
            let is = final(o).delivered();
            let done = was.dom().contains(mine) && was[mine].acked_at_ms is Some;
            &&& final(o).rows@ == old(o).rows@
            &&& done ==> is == was
            &&& !done ==> {
                &&& is.dom().contains(mine) && is[mine].acked_at_ms is None
                &&& is[mine].available_at_ms == available_at_ms
                &&& !was.dom().contains(mine) ==> is[mine].attempts == 1
                &&& was.dom().contains(mine) && was[mine].attempts < u64::MAX ==> is[mine].attempts
                    == was[mine].attempts + 1
            }
            &&& key != mine ==> is.dom().contains(key) == was.dom().contains(key)
            &&& key != mine && was.dom().contains(key) ==> is[key] == was[key]
        }),
{
    putting_off_is_noted(old(o).rows@, old(o).delivered(), i, consumer, available_at_ms);
}

/// New events stand behind the others, with the next number, and tell what happened to
/// which item.
pub proof fn events_are_added_behind(
    o: &mut Outbox,
    event_id: u128,
    event_type: EventType,
    id: ContentId,
    payload: OutboxPayload,
    now_ms: i64,
    r: (),
)
    requires
        old(o).wf(),
        old(o).last_id < i64::MAX,
        !old(o).has_event_id(event_id),
        call_ensures(Outbox::enqueue, (o, event_id, event_type, id, payload, now_ms), r),
    ensures
        final(o).rows@.len() == old(o).rows@.len() + 1,
        final(o).rows@.drop_last() == old(o).rows@,
        final(o).rows@.last().id == old(o).last_id + 1,
        final(o).rows@.last().event_id == event_id,
        final(o).rows@.last().event_type == event_type,
        final(o).rows@.last().aggregate_id == id,
        final(o).rows@.last().payload == payload,
        final(o).rows@.last().available_at_ms == now_ms,
        final(o).rows@.last().attempts == 0,
        final(o).deliveries@ == old(o).deliveries@,
{
    assert(final(o).rows@.drop_last() =~= old(o).rows@);
}

/// The names under which events and consumers are kept.
pub proof fn events_and_consumers_have_names(
    e: EventType,
    en: &'static str,
    c: Consumer,
    cn: &'static str,
)
    requires
        call_ensures(EventType::as_str, (&e,), en),
        call_ensures(Consumer::as_str, (&c,), cn),
    ensures
        e == EventType::Committed ==> en@ == "content.committed.v1"@,
        e == EventType::Deleted ==> en@ == "content.deleted.v1"@,
        c == Consumer::Lan ==> cn@ == "asterism.sync.lan"@,
        c == Consumer::Hub ==> cn@ == "asterism.sync.hub"@,
        c == Consumer::HubDelete ==> cn@ == "asterism.sync.hub_delete"@,
{
}


/// The events whose time has come are given, `r`, from the first on, of one type or of all.
pub proof fn available_events_are_given(
    o: Outbox,
    event_type: Option<EventType>,
    limit: u32,
    now_ms: i64,
    r: Vec<OutboxEvent>,
    i: int,
)
    requires
        call_ensures(Outbox::pending, (&o, event_type, limit, now_ms), r),
    ensures
        ({
            let all = o.rows@.filter(
                |row: OutboxEvent|
                    row.available_at_ms <= now_ms && (event_type is None || event_type == Some(
                        row.event_type,
                    )),
            );
            &&& r@.len() <= all.len()
            &&& 0 <= i < r@.len() ==> r@[i] == all[i]
            &&& 1 <= limit <= 200 && all.len() >= limit ==> r@.len() == limit
            &&& 1 <= limit && all.len() <= limit && all.len() <= 200 ==> r@.len() == all.len()
        }),
{
    available_events_are_handed_out(o.rows@, event_type, now_ms);
    a_page_is_the_front(available_rows(o.rows@, event_type, now_ms), page_limit(limit));
}

/// The event that waits for a consumer, `r`, is the latest about the item that it has not
/// dealt with; there is none just if it has dealt with all.
pub proof fn the_latest_event_waits(
    o: Outbox,
    event_type: EventType,
    id: ContentId,
    consumer: Consumer,
    r: Option<i64>,
    i: int,
)
    requires
        o.wf(),
        call_ensures(Outbox::latest_unacked, (&o, event_type, id, consumer), r),
        0 <= i < o.rows@.len(),
        o.rows@[i].event_type == event_type,
        o.rows@[i].aggregate_id == id,
        !(o.delivered().dom().contains((o.rows@[i].event_id, consumer)) && o.delivered()[(
            o.rows@[i].event_id,
            consumer,
        )].acked_at_ms is Some),
        forall|j: int|
            i < j < o.rows@.len() ==> !((#[trigger] o.rows@[j]).event_type == event_type
                && o.rows@[j].aggregate_id == id && !(o.delivered().dom().contains(
                (o.rows@[j].event_id, consumer),
            ) && o.delivered()[(o.rows@[j].event_id, consumer)].acked_at_ms is Some)),
    ensures
        r == Some(o.rows@[i].id),
{
    waiting_event_is_the_latest(o.rows@, o.delivered(), event_type, id, consumer, i);
}


} // verus!
