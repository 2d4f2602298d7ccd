//! Subscribers, which follow the events of an entity type behind a cursor of their own.
use vstd::prelude::*;
use vstd::string::*;

use crate::error::{DbError, Result, StrunkError};
use crate::like::like;
use crate::outbox::{answers, copies_of, run_query, Query};
use crate::ranking::first_ranked;
use crate::store::{held_ids, Store, SubscriberRow};
use crate::text::{has_prefix, starts_with};
use crate::time::{Span, Timestamp};
use crate::types::OutboxRow;

verus! {

/// How a subscriber follows the events of an entity type.
#[derive(Debug)]
pub struct Subscriber {
    pub id: String,
    pub entity_type: String,
    pub schema_version: String,
    /// How long an idle subscriber waits.
    pub poll_interval: Span,
    /// How many events are read at a time.
    pub batch_size: i64,
    /// Where notifications of new events come from.
    pub database_url: Option<String>,
}

/// The pattern of the keys of an entity type's events.
pub open spec fn event_pattern(entity_type: Seq<char>) -> Seq<char> {
    entity_type + ":"@ + "%"@
}

/// What stands in the table of subscribers after a subscriber has been registered. One that is
/// there gets the schema version only.
pub open spec fn subscriber_registered(
    before: Map<Seq<char>, SubscriberRow>,
    after: Map<Seq<char>, SubscriberRow>,
    subscriber: Subscriber,
    now: Timestamp,
) -> bool {
    let id = subscriber.id@;
    &&& after.contains_key(id)
    &&& after == before.insert(id, after[id])
    &&& after[id].schema_version@ == subscriber.schema_version@
    &&& if before.contains_key(id) {
        after[id] == (SubscriberRow { schema_version: after[id].schema_version, ..before[id] })
    } else {
        &&& after[id].entity_type@ == subscriber.entity_type@
        &&& after[id].last_seen_id == 0
        &&& after[id].registered_at == now
    }
}

/// The table of subscribers after a cursor has been set, if the subscriber is there.
pub open spec fn with_cursor(
    subscribers: Map<Seq<char>, SubscriberRow>,
    id: Seq<char>,
    to: i64,
) -> Map<Seq<char>, SubscriberRow> {
    if subscribers.contains_key(id) {
        subscribers.insert(id, SubscriberRow { last_seen_id: to, ..subscribers[id] })
    } else {
        subscribers
    }
}

/// Sets the cursor of a subscriber, if it is there.
pub fn set_cursor(store: &mut Store, id: &str, to: i64)
    requires
        old(store).wf(),
    ensures
        final(store).wf(),
        *final(store) == (Store { subscribers: final(store).subscribers, ..*old(store) }),
        final(store).subscribers@ == with_cursor(old(store).subscribers@, id@, to),
{
    let key: String = id.to_owned();
    if let Some(row) = store.subscribers.remove(&key) {
        store.subscribers.insert(key, SubscriberRow { last_seen_id: to, ..row });
    }
    assert(store.subscribers@ =~= with_cursor(old(store).subscribers@, id@, to));
}

/// Whether a notification is for an entity type.
pub open spec fn is_event_notice(payload: Seq<char>, entity_type: Seq<char>) -> bool {
    has_prefix(payload, "event:"@ + entity_type + ":"@)
}

impl Subscriber {
    pub fn new(id: &str, entity_type: &str) -> (r: Subscriber)
        ensures
            r.id@ == id@,
            r.entity_type@ == entity_type@,
            r.schema_version@ == "1.0"@,
            r.poll_interval.micros == 100_000,
            r.batch_size == 100,
            r.database_url is None,
    {
        Subscriber {
            id: id.to_owned(),
            entity_type: entity_type.to_owned(),
            schema_version: "1.0".to_owned(),
            poll_interval: Span::from_millis(100),
            batch_size: 100,
            database_url: None,
        }
    }

    pub fn schema_version(self, version: &str) -> (r: Subscriber)
        ensures
            r.schema_version@ == version@,
            r == (Subscriber { schema_version: r.schema_version, ..self }),
    {
        Subscriber { schema_version: version.to_owned(), ..self }
    }

    pub fn poll_interval(self, interval: Span) -> (r: Subscriber)
        ensures
            r == (Subscriber { poll_interval: interval, ..self }),
    {
        Subscriber { poll_interval: interval, ..self }
    }

    pub fn batch_size(self, size: i64) -> (r: Subscriber)
        ensures
            r == (Subscriber { batch_size: size, ..self }),
    {
        Subscriber { batch_size: size, ..self }
    }

    pub fn database_url(self, url: &str) -> (r: Subscriber)
        ensures
            r.database_url is Some,
            r.database_url->0@ == url@,
            r == (Subscriber { database_url: r.database_url, ..self }),
    {
        Subscriber { database_url: Some(url.to_owned()), ..self }
    }

    /// Whether a notification is for the subscriber's entity type.
    pub fn concerns(&self, payload: &str) -> (r: bool)
        ensures
            r == is_event_notice(payload@, self.entity_type@),
    {
        let prefix: String = "event:".to_owned().concat(self.entity_type.as_str()).concat(":");
        starts_with(payload, prefix.as_str())
    }

    /// Enters the subscriber, with a cursor before all events.
    pub fn register(&self, store: &mut Store) -> (r: Result<()>)
        requires
            old(store).wf(),
        ensures
            final(store).wf(),
            r is Ok,
            *final(store) == (Store { subscribers: final(store).subscribers, ..*old(store) }),
            subscriber_registered(
                old(store).subscribers@,
                final(store).subscribers@,
                *self,
                old(store).now,
            ),
    {
        let now: Timestamp = store.now;
        let row: SubscriberRow = match store.subscribers.remove(&self.id) {
            Some(row) => SubscriberRow { schema_version: self.schema_version.clone(), ..row },
            None => SubscriberRow {
                entity_type: self.entity_type.clone(),
                last_seen_id: 0,
                schema_version: self.schema_version.clone(),
                registered_at: now,
            },
        };
        store.subscribers.insert(self.id.clone(), row);
        assert(store.subscribers@ =~= old(store).subscribers@.insert(self.id@, row));
        Ok(())
    }

    /// The subscriber's cursor.
    pub fn last_seen_id(&self, store: &Store) -> (r: Result<i64>)
        requires
            store.wf(),
        ensures
            r == if store.subscribers@.contains_key(self.id@) {
                Result::<i64>::Ok(store.subscribers@[self.id@].last_seen_id)
            } else {
                Result::<i64>::Err(StrunkError::Database(DbError::RowNotFound))
            },
    {
        match store.subscribers.get(&self.id) {
            Some(row) => Ok(row.last_seen_id),
            None => Err(StrunkError::Database(DbError::RowNotFound)),
        }
    }

    /// Moves the subscriber's cursor.
    pub fn advance_cursor(&self, store: &mut Store, last_id: i64) -> (r: Result<()>)
        requires
            old(store).wf(),
        ensures
            final(store).wf(),
            r is Ok,
            *final(store) == (Store { subscribers: final(store).subscribers, ..*old(store) }),
            final(store).subscribers@ == with_cursor(old(store).subscribers@, self.id@, last_id),
    {
        set_cursor(store, self.id.as_str(), last_id);
        Ok(())
    }

    /// The first events behind a cursor, in the order in which they were published. None comes that
    /// an open transaction may still put an event before.
    pub fn poll_changes(&self, store: &Store, after_id: i64) -> (r: Result<Vec<OutboxRow>>)
        requires
            store.wf(),
        ensures
            changes_polled(*self, *store, after_id, r),
    {
        let pattern: String = self.entity_type.as_str().to_owned().concat(":").concat("%");
        let before: i64 = horizon(&store.held, store.next_id);
        let query: Query = Query::Feed { pattern, after: after_id, before };
        match run_query(&store.outbox, &query, self.batch_size) {
            Ok(found) => {
                proof {
                    assert(store.outbox.len() == store.outbox@.len());
                    lemma_horizon(*store, before);
                    lemma_feed(
                        store.outbox@,
                        pattern,
                        after_id,
                        held_ids(*store),
                        before,
                        self.batch_size as int,
                        found@,
                    );
                }
                Ok(found)
            },
            Err(e) => Err(StrunkError::Database(e)),
        }
    }
}

/// Whether a subscriber got the first events behind a cursor, as many as it reads at a time. It
/// cannot read fewer than none.
pub open spec fn changes_polled(
    subscriber: Subscriber,
    store: Store,
    after_id: i64,
    r: Result<Vec<OutboxRow>>,
) -> bool {
    match r {
        Ok(found) => subscriber.batch_size >= 0 && feed_answered(
            store.outbox@,
            event_pattern(subscriber.entity_type@),
            after_id,
            held_ids(store),
            subscriber.batch_size as int,
            found@,
        ),
        Err(e) => subscriber.batch_size < 0 && e == StrunkError::Database(DbError::NegativeLimit),
    }
}

/// Whether a row is an event whose key matches a pattern.
pub open spec fn in_feed(row: OutboxRow, pattern: Seq<char>) -> bool {
    row.kind is Event && like(pattern, row.key@)
}

/// Whether an identifier comes before all that are held.
pub open spec fn is_ripe(id: i64, held: Set<i64>) -> bool {
    forall|h: i64| #[trigger] held.contains(h) ==> id < h
}

/// The lowest of the identifiers that are held and the next one.
pub fn horizon(held: &Vec<i64>, next_id: i64) -> (r: i64)
    ensures
        r <= next_id,
        forall|i: int| 0 <= i < held@.len() ==> r <= #[trigger] held@[i],
        r == next_id || held@.contains(r),
{
    let mut lowest: i64 = next_id;
    let n: usize = held.len();
    let mut i: usize = 0;
    while i < n
        invariant
            n == held.len(),
            i <= n,
            lowest <= next_id,
            forall|j: int| 0 <= j < i ==> lowest <= #[trigger] held@[j],
            lowest == next_id || held@.contains(lowest),
        decreases n - i,
    {
        if held[i] < lowest {
            lowest = held[i];
        }
        i = i + 1;
    }
    lowest
}

/// The rows of a store before the horizon are those before all identifiers that are held.
proof fn lemma_horizon(store: Store, before: i64)
    requires
        store.wf(),
        before <= store.next_id,
        forall|i: int| 0 <= i < store.held@.len() ==> before <= #[trigger] store.held@[i],
        before == store.next_id || store.held@.contains(before),
    ensures
        forall|i: int|
            0 <= i < store.outbox@.len() ==> ((#[trigger] store.outbox@[i]).id < before <==> is_ripe(
                store.outbox@[i].id,
                held_ids(store),
            )),
{
    assert forall|i: int| 0 <= i < store.outbox@.len() implies ((#[trigger] store.outbox@[i]).id
        < before <==> is_ripe(store.outbox@[i].id, held_ids(store))) by {
        let id = store.outbox@[i].id;
        if id < before {
            assert forall|h: i64| #[trigger] held_ids(store).contains(h) implies id < h by {
                let k = store.held@.index_of(h);
                assert(before <= store.held@[k]);
            }
        }
        if is_ripe(id, held_ids(store)) && before != store.next_id {
            assert(held_ids(store).contains(before));
        }
    }
}

/// Whether `found` are copies of the first `limit` events behind a cursor and before all identifiers
/// that are held, in the order of their identifiers: each stands in the table, and such an event
/// that is left out comes later than all of them, for want of room.
pub open spec fn feed_answered(
    rows: Seq<OutboxRow>,
    pattern: Seq<char>,
    after: i64,
    held: Set<i64>,
    limit: int,
    found: Seq<OutboxRow>,
) -> bool {
    &&& found.len() <= limit
    &&& forall|k: int| 0 <= k < found.len() ==> stands_in(#[trigger] found[k], rows) && in_feed(
        found[k],
        pattern,
    ) && found[k].id > after && is_ripe(found[k].id, held)
    &&& forall|j: int, k: int|
        0 <= j < k < found.len() ==> (#[trigger] found[j]).id < (#[trigger] found[k]).id
    &&& forall|i: int|
        0 <= i < rows.len() && in_feed(#[trigger] rows[i], pattern) && rows[i].id > after && is_ripe(
            rows[i].id,
            held,
        ) ==> lists_id(found, rows[i].id) || (found.len() == limit && forall|k: int|
            0 <= k < found.len() ==> (#[trigger] found[k]).id < rows[i].id)
}

/// Whether a row is a copy of one in the table.
pub open spec fn stands_in(row: OutboxRow, rows: Seq<OutboxRow>) -> bool {
    exists|i: int| 0 <= i < rows.len() && row.same(#[trigger] rows[i])
}

/// Whether one of the rows has an identifier.
pub open spec fn lists_id(rows: Seq<OutboxRow>, id: i64) -> bool {
    exists|k: int| 0 <= k < rows.len() && (#[trigger] rows[k]).id == id
}

proof fn lemma_feed(
    rows: Seq<OutboxRow>,
    pattern: String,
    after: i64,
    held: Set<i64>,
    before: i64,
    limit: int,
    found: Seq<OutboxRow>,
)
    requires
        crate::outbox::distinct_ids(rows),
        rows.len() <= usize::MAX,
        forall|i: int|
            0 <= i < rows.len() ==> ((#[trigger] rows[i]).id < before <==> is_ripe(
                rows[i].id,
                held,
            )),
        answers(Query::Feed { pattern, after, before }, rows, limit, found),
    ensures
        feed_answered(rows, pattern@, after, held, limit, found),
{
    let query = Query::Feed { pattern, after, before };
    let ranks = query.ranks(rows);
    let places = choose|places: Seq<usize>|
        first_ranked(ranks, places, limit) && #[trigger] copies_of(found, rows, places);
    assert forall|k: int| 0 <= k < found.len() implies stands_in(#[trigger] found[k], rows)
        && in_feed(found[k], pattern@) && found[k].id > after && is_ripe(found[k].id, held) by {
        assert(found[k].same(rows[places[k] as int]));
        assert(ranks[places[k] as int] is Some);
    }
    assert forall|j: int, k: int| 0 <= j < k < found.len() implies (#[trigger] found[j]).id < (
    #[trigger] found[k]).id by {
        assert(found[j].same(rows[places[j] as int]));
        assert(found[k].same(rows[places[k] as int]));
        assert(crate::ranking::rank_le(
            ranks[places[j] as int]->0,
            ranks[places[k] as int]->0,
        ));
        assert(places[j] != places[k]);
        let a = places[j] as int;
        let b = places[k] as int;
        if a < b {
            assert(rows[a].id != rows[b].id);
        } else {
            assert(rows[b].id != rows[a].id);
        }
    }
    assert forall|i: int|
        0 <= i < rows.len() && in_feed(#[trigger] rows[i], pattern@) && rows[i].id > after
            && is_ripe(rows[i].id, held) implies lists_id(found, rows[i].id) || (found.len()
        == limit && forall|k: int|
        0 <= k < found.len() ==> (#[trigger] found[k]).id < rows[i].id) by {
        assert(ranks[i] is Some);
        if places.contains(i as usize) {
            let k = places.index_of(i as usize);
            assert(found[k].same(rows[places[k] as int]));
            assert(found[k].id == rows[i].id);
        } else {
            assert forall|k: int| 0 <= k < found.len() implies (#[trigger] found[k]).id
                < rows[i].id by {
                assert(found[k].same(rows[places[k] as int]));
                assert(crate::ranking::rank_le(ranks[places[k] as int]->0, ranks[i]->0));
                let a = places[k] as int;
                assert(places.contains(places[k]));
                if a < i {
                    assert(rows[a].id != rows[i].id);
                } else {
                    assert(rows[i].id != rows[a].id);
                }
            }
        }
    }
}

/// What a subscriber does next.
#[derive(Debug, Clone, Copy, PartialEq, Eq, Structural)]
pub enum SubscriberStep {
    /// Enter the subscriber.
    Register,
    /// Ask whether it has been told to stop.
    Check,
    /// Read its cursor.
    ReadCursor,
    /// Read the events behind the cursor.
    Poll { after: i64 },
    /// Run the handler on one event of those read.
    Handle { index: usize, count: usize },
    /// Move the cursor to that event.
    Advance { index: usize, count: usize },
    /// Wait for the interval to pass or to be told to stop, or also for a notification.
    Wait { listen: bool },
    /// Wait a moment, since the notification was for another entity type.
    Pause,
    /// Nothing more.
    Stop,
}

/// How a step ended.
#[derive(Debug, Clone, Copy, PartialEq, Eq, Structural)]
pub enum SubscriberEvent {
    /// Whether the subscriber was entered.
    Registered { ok: bool },
    /// Whether the subscriber had been told to stop.
    Token { cancelled: bool },
    /// The cursor.
    Cursor(i64),
    /// How many events were read.
    Polled { count: usize },
    /// The cursor or the events could not be read.
    Failed,
    /// Whether the handler succeeded.
    Handled { ok: bool },
    /// Whether the cursor was moved.
    Advanced { ok: bool },
    /// A notification came, for the subscriber's entity type or for another.
    Notified { ours: bool },
    /// The interval has passed, or the notifications have broken off.
    Elapsed,
    /// The subscriber was told to stop.
    Cancelled,
}

impl SubscriberStep {
    /// The step after this one, for a subscriber that does or does not listen for notifications.
    /// An event that the step does not end with changes nothing.
    pub open spec fn after(self, event: SubscriberEvent, listening: bool) -> SubscriberStep {
        match (self, event) {
            (SubscriberStep::Register, SubscriberEvent::Registered { ok }) => if ok {
                SubscriberStep::Check
            } else {
                SubscriberStep::Stop
            },
            (SubscriberStep::Check, SubscriberEvent::Token { cancelled }) => if cancelled {
                SubscriberStep::Stop
            } else {
                SubscriberStep::ReadCursor
            },
            (SubscriberStep::ReadCursor, SubscriberEvent::Cursor(after)) => SubscriberStep::Poll {
                after,
            },
            (SubscriberStep::ReadCursor, SubscriberEvent::Failed) => SubscriberStep::Wait {
                listen: false,
            },
            (SubscriberStep::Poll { .. }, SubscriberEvent::Polled { count }) => if count > 0 {
                SubscriberStep::Handle { index: 0, count }
            } else {
                SubscriberStep::Wait { listen: listening }
            },
            (SubscriberStep::Poll { .. }, SubscriberEvent::Failed) => SubscriberStep::Wait {
                listen: false,
            },
            (SubscriberStep::Handle { index, count }, SubscriberEvent::Handled { ok }) => if ok {
                SubscriberStep::Advance { index, count }
            } else {
                SubscriberStep::Wait { listen: false }
            },
            (SubscriberStep::Advance { index, count }, SubscriberEvent::Advanced { ok }) => if ok
                && index + 1 < count {
                SubscriberStep::Handle { index: (index + 1) as usize, count }
            } else {
                SubscriberStep::Wait { listen: ok && listening }
            },
            (SubscriberStep::Wait { listen }, SubscriberEvent::Notified { ours }) => if !listen {
                self
            } else if ours {
                SubscriberStep::Check
            } else {
                SubscriberStep::Pause
            },
            (SubscriberStep::Wait { .. }, SubscriberEvent::Elapsed) => SubscriberStep::Check,
            (SubscriberStep::Wait { .. }, SubscriberEvent::Cancelled) => SubscriberStep::Stop,
            (SubscriberStep::Pause, SubscriberEvent::Elapsed) => SubscriberStep::Check,
            _ => self,
        }
    }

    /// The first step.
    pub fn first() -> (r: SubscriberStep)
        ensures
            r is Register,
    {
        SubscriberStep::Register
    }

    /// The step after this one.
    pub fn next(self, event: SubscriberEvent, listening: bool) -> (r: SubscriberStep)
        ensures
            r == self.after(event, listening),
    {
        match (self, event) {
            (SubscriberStep::Register, SubscriberEvent::Registered { ok }) => if ok {
                SubscriberStep::Check
            } else {
                SubscriberStep::Stop
            },
            (SubscriberStep::Check, SubscriberEvent::Token { cancelled }) => if cancelled {
                SubscriberStep::Stop
            } else {
                SubscriberStep::ReadCursor
            },
            (SubscriberStep::ReadCursor, SubscriberEvent::Cursor(after)) => SubscriberStep::Poll {
                after,
            },
            (SubscriberStep::ReadCursor, SubscriberEvent::Failed) => SubscriberStep::Wait {
                listen: false,
            },
            (SubscriberStep::Poll { .. }, SubscriberEvent::Polled { count }) => if count > 0 {
                SubscriberStep::Handle { index: 0, count }
            } else {
                SubscriberStep::Wait { listen: listening }
            },
            (SubscriberStep::Poll { .. }, SubscriberEvent::Failed) => SubscriberStep::Wait {
                listen: false,
            },
            (SubscriberStep::Handle { index, count }, SubscriberEvent::Handled { ok }) => if ok {
                SubscriberStep::Advance { index, count }
            } else {
                SubscriberStep::Wait { listen: false }
            },
            (SubscriberStep::Advance { index, count }, SubscriberEvent::Advanced { ok }) => if ok
                && index < usize::MAX && index + 1 < count {
                SubscriberStep::Handle { index: index + 1, count }
            } else {
                SubscriberStep::Wait { listen: ok && listening }
            },
            (SubscriberStep::Wait { listen }, SubscriberEvent::Notified { ours }) => if !listen {
                self
            } else if ours {
                SubscriberStep::Check
            } else {
                SubscriberStep::Pause
            },
            (SubscriberStep::Wait { .. }, SubscriberEvent::Elapsed) => SubscriberStep::Check,
            (SubscriberStep::Wait { .. }, SubscriberEvent::Cancelled) => SubscriberStep::Stop,
            (SubscriberStep::Pause, SubscriberEvent::Elapsed) => SubscriberStep::Check,
            _ => self,
        }
    }
}

/// Whether a subscriber has done what a step asks of the store, `batch` being the events read last.
/// The other steps leave the store alone and end with no event of their own.
pub open spec fn subscriber_performed(
    subscriber: Subscriber,
    before: Store,
    after: Store,
    step: SubscriberStep,
    batch: Seq<OutboxRow>,
    event: Option<SubscriberEvent>,
    read: Option<Seq<OutboxRow>>,
) -> bool {
    match step {
        SubscriberStep::Register => {
            &&& event == Some(SubscriberEvent::Registered { ok: true })
            &&& read is None
            &&& after == (Store { subscribers: after.subscribers, ..before })
            &&& subscriber_registered(
                before.subscribers@,
                after.subscribers@,
                subscriber,
                before.now,
            )
        },
        SubscriberStep::ReadCursor => {
            &&& event == Some(
                if before.subscribers@.contains_key(subscriber.id@) {
                    SubscriberEvent::Cursor(before.subscribers@[subscriber.id@].last_seen_id)
                } else {
                    SubscriberEvent::Failed
                },
            )
            &&& read is None
            &&& after == before
        },
        SubscriberStep::Poll { after: cursor } => {
            &&& after == before
            &&& if subscriber.batch_size < 0 {
                event == Some(SubscriberEvent::Failed) && read is None
            } else {
                &&& read matches Some(found)
                &&& event == Some(SubscriberEvent::Polled { count: found.len() as usize })
                &&& found.len() <= usize::MAX
                &&& feed_answered(
                    before.outbox@,
                    event_pattern(subscriber.entity_type@),
                    cursor,
                    held_ids(before),
                    subscriber.batch_size as int,
                    found,
                )
            }
        },
        SubscriberStep::Advance { index, .. } => {
            &&& event == Some(SubscriberEvent::Advanced { ok: true })
            &&& read is None
            &&& after == (Store { subscribers: after.subscribers, ..before })
            &&& after.subscribers@ == with_cursor(
                before.subscribers@,
                subscriber.id@,
                batch[index as int].id,
            )
        },
        _ => event is None && read is None && after == before,
    }
}

impl Subscriber {
    /// Does what a step asks of the store.
    pub fn perform(&self, store: &mut Store, step: SubscriberStep, batch: &Vec<OutboxRow>) -> (r: (
        Option<SubscriberEvent>,
        Option<Vec<OutboxRow>>,
    ))
        requires
            old(store).wf(),
            step matches SubscriberStep::Advance { index, .. } ==> index < batch.len(),
        ensures
            final(store).wf(),
            subscriber_performed(
                *self,
                *old(store),
                *final(store),
                step,
                batch@,
                r.0,
                match r.1 {
                    Some(found) => Some(found@),
                    None => None,
                },
            ),
    {
        match step {
            SubscriberStep::Register => {
                let ok: bool = self.register(store).is_ok();
                (Some(SubscriberEvent::Registered { ok }), None)
            },
            SubscriberStep::ReadCursor => match self.last_seen_id(store) {
                Ok(cursor) => (Some(SubscriberEvent::Cursor(cursor)), None),
                Err(_) => (Some(SubscriberEvent::Failed), None),
            },
            SubscriberStep::Poll { after } => match self.poll_changes(store, after) {
                Ok(found) => {
                    let count: usize = found.len();
                    (Some(SubscriberEvent::Polled { count }), Some(found))
                },
                Err(_) => (Some(SubscriberEvent::Failed), None),
            },
            SubscriberStep::Advance { index, .. } => {
                let last_id: i64 = batch[index].id;
                let ok: bool = self.advance_cursor(store, last_id).is_ok();
                (Some(SubscriberEvent::Advanced { ok }), None)
            },
            _ => (None, None),
        }
    }
}

} // verus!
