//! What becomes of events, column by column: publishing them, reading them behind a cursor, relaying
//! them, and how far a subscriber is behind.
use vstd::prelude::*;

use crate::change_feed::{published, publishing_answered, ChangePublish};
use crate::error::Result;
use crate::json::{first_named, JsonView};
use crate::like::{is_plain, like, plain_pattern_is_prefix};
use crate::relay::{relay_answered, relay_polled, Relay};
use crate::relay_loop::{relay_stepped, RelayEvent};
use crate::schema::valid;
use crate::stats::{latest_event, subscriber_counted, SubscriberStats};
use crate::store::{
    committed, held_ids, with_snapshots, NewSnapshot, SnapshotRow, Store, SubscriberRow,
    Transaction,
};
use crate::subscriber::{
    changes_polled, event_pattern, feed_answered, in_feed, is_ripe, subscriber_registered,
    with_cursor, Subscriber,
};
use crate::text::has_prefix;
use crate::time::Timestamp;
use crate::types::{OutboxRow, StateEvent};

verus! {

/// An event that was published stands at the end of its transaction: an event under the key of its
/// entity, with the state as its payload and the schema version and the difference, if there is one,
/// beside it, pending and to be seen at once.
pub proof fn published_event_stands_as_given(
    tx: Transaction,
    store: Store,
    tx_after: Transaction,
    store_after: Store,
    id: i64,
    event: ChangePublish,
)
    requires
        published(tx, store, tx_after, store_after, Ok(id), event),
    ensures
        tx_after.rows@.len() == tx.rows@.len() + 1,
        tx_after.rows@.drop_last() == tx.rows@,
        ({
            let row = tx_after.rows@.last();
            &&& row.id == id
            &&& row.kind is Event
            &&& row.key@ == event.entity_type@ + ":"@ + event.entity_id@
            &&& row.dedup_key is None
            &&& row.payload == event.state
            &&& row.status is Pending
            &&& row.attempts == 0
            &&& row.max_retries == 3
            &&& row.priority == 0
            &&& row.progress == 0
            &&& row.visible_at == tx.started_at
            &&& row.created_at == tx.started_at
            &&& row.delivered_at is None
            &&& row.metadata@ is Object
            &&& first_named(row.metadata@->Object_0, "schema_version"@) == Some(
                JsonView::String(event.schema_version@),
            )
            &&& first_named(row.metadata@->Object_0, "diff"@) == (match event.diff {
                Some(diff) => Some(diff@),
                None => None,
            })
        }),
        tx_after.snapshots@.len() == tx.snapshots@.len() + 1,
        ({
            let snapshot = tx_after.snapshots@.last();
            &&& snapshot.entity_type@ == event.entity_type@
            &&& snapshot.entity_id@ == event.entity_id@
            &&& snapshot.state@ == event.state@
            &&& snapshot.version@ == event.schema_version@
        }),
{
    let new = choose|new: crate::store::NewRow| #[trigger]
        event.becomes(new) && crate::store::inserted(
            tx,
            store,
            crate::change_feed::without_snapshot(tx, tx_after),
            store_after,
            Ok(id),
            new,
        );
    assert(tx_after.rows@.drop_last() =~= tx.rows@);
    reveal_strlit("schema_version");
    reveal_strlit("diff");
    assert("schema_version"@.len() == 14 && "diff"@.len() == 4);
    let row = tx_after.rows@.last();
    let members = row.metadata@->Object_0;
    match event.diff {
        Some(diff) => {
            crate::json::lemma_first_named_at(members, "diff"@, 0);
            crate::json::lemma_first_named_at(members, "schema_version"@, 1);
        },
        None => {
            crate::json::lemma_first_named_at(members, "schema_version"@, 0);
            crate::json::lemma_first_named(members, "diff"@);
        },
    }
    let snapshot = choose|snapshot: crate::store::NewSnapshot| #[trigger]
        event.shows(snapshot) && tx_after.snapshots@ == tx.snapshots@.push(snapshot);
    assert(tx_after.snapshots@.last() == snapshot);
}

/// What a subscriber's handler sees of an event is what was published, where the entity type has no
/// colon.
pub proof fn handler_sees_what_was_published(
    tx: Transaction,
    store: Store,
    tx_after: Transaction,
    store_after: Store,
    id: i64,
    event: ChangePublish,
    seen: StateEvent,
)
    requires
        published(tx, store, tx_after, store_after, Ok(id), event),
        seen.shows(tx_after.rows@.last()),
        !event.entity_type@.contains(':'),
    ensures
        seen.id == id,
        seen.entity_type@ == event.entity_type@,
        seen.entity_id@ == event.entity_id@,
        seen.state@ == event.state@,
        seen.diff is Some <==> event.diff is Some,
        event.diff matches Some(diff) ==> seen.diff->0@ == diff@,
        seen.created_at == tx.started_at,
{
    published_event_stands_as_given(tx, store, tx_after, store_after, id, event);
    crate::types::split_key_reads_back(event.entity_type@, event.entity_id@);
}

/// What a subscriber's handler sees of any row: its identifier, payload and time, the key cut at its
/// first colon, and what stands under `diff` beside the payload.
pub proof fn handler_sees_the_row(
    seen: StateEvent,
    row: OutboxRow,
    head: Seq<char>,
    tail: Seq<char>,
)
    requires
        seen.shows(row),
    ensures
        seen.id == row.id,
        seen.state@ == row.payload@,
        seen.created_at == row.created_at,
        row.key@ == head + ":"@ + tail && !head.contains(':') ==> seen.entity_type@ == head
            && seen.entity_id@ == tail,
        !row.key@.contains(':') ==> seen.entity_type@ == row.key@ && seen.entity_id@.len() == 0,
        (row.metadata@ matches JsonView::Object(members) && first_named(members, "diff"@) is Some)
            <==> seen.diff is Some,
        seen.diff matches Some(diff) ==> first_named(row.metadata@->Object_0, "diff"@) == Some(
            diff@,
        ),
{
    if row.key@ == head + ":"@ + tail && !head.contains(':') {
        crate::types::split_key_reads_back(head, tail);
    }
    row.key@.index_of_first_ensures(':');
}

/// An event is published whenever its registry, if it has one, has the entity type's version and the
/// state meets it, the transaction has not failed before, and there is an identifier left. A state
/// that the registry does not accept leaves no trace.
pub proof fn accepted_event_is_published(
    tx: Transaction,
    store: Store,
    tx_after: Transaction,
    store_after: Store,
    r: Result<i64>,
    event: ChangePublish,
)
    requires
        publishing_answered(tx, store, tx_after, store_after, r, event),
    ensures
        ({
            let accepted = match event.registry {
                None => true,
                Some(registry) => {
                    &&& registry@.contains_key(event.entity_type@)
                    &&& registry@[event.entity_type@].contains_key(event.schema_version@)
                    &&& valid(registry@[event.entity_type@][event.schema_version@], event.state@)
                },
            };
            &&& r is Ok <==> accepted && !tx.aborted && store.next_id < i64::MAX
            &&& !accepted ==> tx_after == tx && store_after == store
            &&& (r matches Ok(id) ==> published(tx, store, tx_after, store_after, r, event) && id
                == store.next_id)
        }),
{
    if event.accepted() {
        let new = choose|new: crate::store::NewRow| #[trigger]
            event.becomes(new) && crate::store::inserted(
                tx,
                store,
                crate::change_feed::without_snapshot(tx, tx_after),
                store_after,
                r,
                new,
            );
        assert(new.dedup_key is None);
    }
}

/// Of the snapshots that a transaction wrote of an entity, the commit shows the last, written at the
/// time of the transaction. An entity of which it wrote none keeps its snapshot.
pub proof fn commit_shows_the_last_snapshot(
    tx: Transaction,
    before: Store,
    after: Store,
    i: int,
    key: (Seq<char>, Seq<char>),
)
    requires
        committed(tx, before, after, Ok(())),
        !tx.aborted,
    ensures
        0 <= i < tx.snapshots@.len() && (forall|j: int|
            i < j < tx.snapshots@.len() ==> ((#[trigger] tx.snapshots@[j]).entity_type@,
            tx.snapshots@[j].entity_id@) != (tx.snapshots@[i].entity_type@,
            tx.snapshots@[i].entity_id@)) ==> {
            let snapshot = tx.snapshots@[i];
            let at = (snapshot.entity_type@, snapshot.entity_id@);
            &&& after.snapshots@.contains_key(at)
            &&& after.snapshots@[at].state == snapshot.state
            &&& after.snapshots@[at].version == snapshot.version
            &&& after.snapshots@[at].updated_at == tx.started_at
        },
        (forall|j: int|
            0 <= j < tx.snapshots@.len() ==> ((#[trigger] tx.snapshots@[j]).entity_type@,
            tx.snapshots@[j].entity_id@) != key) ==> after.snapshots@.contains_key(key)
            == before.snapshots@.contains_key(key) && (before.snapshots@.contains_key(key)
            ==> after.snapshots@[key] == before.snapshots@[key]),
{
    if 0 <= i < tx.snapshots@.len() && (forall|j: int|
        i < j < tx.snapshots@.len() ==> ((#[trigger] tx.snapshots@[j]).entity_type@,
        tx.snapshots@[j].entity_id@) != (tx.snapshots@[i].entity_type@,
        tx.snapshots@[i].entity_id@)) {
        lemma_last_snapshot(before.snapshots@, tx.snapshots@, tx.started_at, i);
    }
    if forall|j: int|
        0 <= j < tx.snapshots@.len() ==> ((#[trigger] tx.snapshots@[j]).entity_type@,
        tx.snapshots@[j].entity_id@) != key {
        crate::feed::other_snapshots_stay(
            before.snapshots@,
            tx.snapshots@,
            tx.started_at,
            key,
        );
    }
}

proof fn lemma_last_snapshot(
    table: Map<(Seq<char>, Seq<char>), SnapshotRow>,
    snapshots: Seq<NewSnapshot>,
    at: Timestamp,
    i: int,
)
    requires
        0 <= i < snapshots.len(),
        forall|j: int|
            i < j < snapshots.len() ==> ((#[trigger] snapshots[j]).entity_type@,
            snapshots[j].entity_id@) != (snapshots[i].entity_type@, snapshots[i].entity_id@),
    ensures
        ({
            let key = (snapshots[i].entity_type@, snapshots[i].entity_id@);
            let shown = with_snapshots(table, snapshots, at);
            &&& shown.contains_key(key)
            &&& shown[key].state == snapshots[i].state
            &&& shown[key].version == snapshots[i].version
            &&& shown[key].updated_at == at
        }),
    decreases snapshots.len(),
{
    let earlier = snapshots.drop_last();
    assert(snapshots.last() == snapshots[snapshots.len() - 1]);
    if i < earlier.len() {
        assert forall|j: int| i < j < earlier.len() implies ((#[trigger] earlier[j]).entity_type@,
        earlier[j].entity_id@) != (earlier[i].entity_type@, earlier[i].entity_id@) by {
            assert(earlier[j] == snapshots[j]);
        }
        lemma_last_snapshot(table, earlier, at, i);
        assert(earlier[i] == snapshots[i]);
    }
}

/// A subscriber that is entered for the first time has its entity type and schema version, a cursor
/// before all events, and the time at which it was entered. One that is there gets the schema version
/// and keeps the rest.
pub proof fn entered_subscriber_stands_as_given(
    before: Map<Seq<char>, SubscriberRow>,
    after: Map<Seq<char>, SubscriberRow>,
    subscriber: Subscriber,
    now: Timestamp,
    other: Seq<char>,
)
    requires
        subscriber_registered(before, after, subscriber, now),
    ensures
        after.contains_key(subscriber.id@),
        after[subscriber.id@].schema_version@ == subscriber.schema_version@,
        !before.contains_key(subscriber.id@) ==> {
            let row = after[subscriber.id@];
            &&& row.entity_type@ == subscriber.entity_type@
            &&& row.last_seen_id == 0
            &&& row.registered_at == now
        },
        before.contains_key(subscriber.id@) ==> {
            let row = after[subscriber.id@];
            &&& row.entity_type == before[subscriber.id@].entity_type
            &&& row.last_seen_id == before[subscriber.id@].last_seen_id
            &&& row.registered_at == before[subscriber.id@].registered_at
        },
        other != subscriber.id@ ==> after.contains_key(other) == before.contains_key(other) && (
        before.contains_key(other) ==> after[other] == before[other]),
{
}

/// A poll leaves out no event of the entity type behind the cursor, whatever its status, its time or
/// its priority, unless an open transaction may still put an event before it, or there are as many
/// events before it as the subscriber reads at a time. A backslash in the type is an escape and
/// stands for the character behind it.
pub proof fn poll_leaves_no_event_out(
    subscriber: Subscriber,
    store: Store,
    entity_id: Seq<char>,
    cursor: i64,
    found: Vec<OutboxRow>,
    i: int,
)
    requires
        !subscriber.entity_type@.contains('\\'),
        changes_polled(subscriber, store, cursor, Ok(found)),
        0 <= i < store.outbox@.len(),
        store.outbox@[i].kind is Event,
        store.outbox@[i].key@ == subscriber.entity_type@ + ":"@ + entity_id,
        store.outbox@[i].id > cursor,
        forall|h: int|
            0 <= h < store.held@.len() ==> store.outbox@[i].id < #[trigger] store.held@[h],
    ensures
        (exists|k: int|
            0 <= k < found@.len() && (#[trigger] found@[k]).id == store.outbox@[i].id) || (
        found@.len() == subscriber.batch_size && forall|k: int|
            0 <= k < found@.len() ==> (#[trigger] found@[k]).id < store.outbox@[i].id),
{
    feed_leaves_no_event_out(
        store,
        subscriber.entity_type@,
        entity_id,
        cursor,
        subscriber.batch_size as int,
        found@,
        i,
    );
}

/// The same of what is read from the feed of an entity type.
pub proof fn feed_leaves_no_event_out(
    store: Store,
    entity_type: Seq<char>,
    entity_id: Seq<char>,
    cursor: i64,
    limit: int,
    found: Seq<OutboxRow>,
    i: int,
)
    requires
        !entity_type.contains('\\'),
        feed_answered(
            store.outbox@,
            event_pattern(entity_type),
            cursor,
            held_ids(store),
            limit,
            found,
        ),
        0 <= i < store.outbox@.len(),
        store.outbox@[i].kind is Event,
        store.outbox@[i].key@ == entity_type + ":"@ + entity_id,
        store.outbox@[i].id > cursor,
        forall|h: int|
            0 <= h < store.held@.len() ==> store.outbox@[i].id < #[trigger] store.held@[h],
    ensures
        (exists|k: int| 0 <= k < found.len() && (#[trigger] found[k]).id == store.outbox@[i].id)
            || (found.len() == limit && forall|k: int|
            0 <= k < found.len() ==> (#[trigger] found[k]).id < store.outbox@[i].id),
{
    let row = store.outbox@[i];
    lemma_own_key_matches(entity_type, entity_id);
    assert(is_ripe(row.id, held_ids(store))) by {
        assert forall|h: i64| #[trigger] held_ids(store).contains(h) implies row.id < h by {
            let k = store.held@.index_of(h);
            assert(store.held@[k] == h);
        }
    }
    assert(in_feed(row, event_pattern(entity_type)));
    if crate::subscriber::lists_id(found, row.id) {
        let k = choose|k: int| 0 <= k < found.len() && (#[trigger] found[k]).id == row.id;
        assert(found[k].id == row.id);
    }
}

/// A text without a backslash, taken as a pattern with `%` behind it, matches every text that starts
/// with it.
pub proof fn own_text_matches(head: Seq<char>, tail: Seq<char>)
    requires
        forall|i: int| 0 <= i < head.len() ==> #[trigger] head[i] != '\\',
    ensures
        like(head + "%"@, head + tail),
    decreases head.len(),
{
    reveal_strlit("%");
    let pattern = head + "%"@;
    let text = head + tail;
    if head.len() == 0 {
        assert(pattern =~= "%"@);
        plain_pattern_is_prefix(head, text);
        assert(text.take(0) =~= head);
    } else {
        let rest = head.drop_first();
        assert forall|i: int| 0 <= i < rest.len() implies #[trigger] rest[i] != '\\' by {
            assert(rest[i] == head[i + 1]);
        }
        own_text_matches(rest, tail);
        assert(pattern.drop_first() =~= rest + "%"@);
        assert(text.drop_first() =~= rest + tail);
        assert(pattern[0] == head[0] && text[0] == head[0]);
        if head[0] == '%' {
            own_text_matches_any(pattern, text);
        }
    }
}

proof fn own_text_matches_any(pattern: Seq<char>, text: Seq<char>)
    requires
        pattern.len() > 0,
        pattern[0] == '%',
        text.len() > 0,
        like(pattern.drop_first(), text.drop_first()),
    ensures
        like(pattern, text),
{
    assert(like(pattern, text.drop_first()));
}

/// What a poll hands out are events behind the cursor whose key matches the entity type with a colon
/// and any text behind it, each as it stands in the table, in the order of their identifiers, none
/// twice and no more than the subscriber reads at a time. None comes behind an event that an open
/// transaction has written.
pub proof fn poll_hands_out_events_in_order(
    subscriber: Subscriber,
    store: Store,
    cursor: i64,
    found: Vec<OutboxRow>,
    j: int,
    k: int,
)
    requires
        changes_polled(subscriber, store, cursor, Ok(found)),
        0 <= k < found@.len(),
    ensures
        found@.len() <= subscriber.batch_size,
        found@[k].id > cursor,
        found@[k].kind is Event,
        like(subscriber.entity_type@ + ":"@ + "%"@, found@[k].key@),
        is_plain(subscriber.entity_type@) ==> has_prefix(
            found@[k].key@,
            subscriber.entity_type@ + ":"@,
        ),
        forall|h: int| 0 <= h < store.held@.len() ==> found@[k].id < #[trigger] store.held@[h],
        0 <= j < k ==> found@[j].id < found@[k].id,
        exists|i: int|
            {
                &&& 0 <= i < store.outbox@.len()
                &&& (#[trigger] store.outbox@[i]).id == found@[k].id
                &&& store.outbox@[i].kind is Event
                &&& store.outbox@[i].key@ == found@[k].key@
                &&& store.outbox@[i].payload@ == found@[k].payload@
                &&& store.outbox@[i].metadata@ == found@[k].metadata@
                &&& store.outbox@[i].status == found@[k].status
                &&& store.outbox@[i].created_at == found@[k].created_at
                &&& store.outbox@[i].visible_at == found@[k].visible_at
                &&& store.outbox@[i].delivered_at == found@[k].delivered_at
            },
{
    let row = found@[k];
    assert(crate::subscriber::stands_in(row, store.outbox@));
    let i = choose|i: int| 0 <= i < store.outbox@.len() && row.same(#[trigger] store.outbox@[i]);
    assert(store.outbox@[i].id == row.id);
    if is_plain(subscriber.entity_type@) {
        lemma_in_feed(row, subscriber.entity_type@);
    }
    assert forall|h: int| 0 <= h < store.held@.len() implies row.id < #[trigger] store.held@[h] by {
        assert(held_ids(store).contains(store.held@[h]));
    }
    if 0 <= j < k {
        assert(found@[j].id < found@[k].id);
    }
}

/// Only a limit below zero is refused, by a subscriber and by the relay.
pub proof fn only_negative_limits_are_refused(
    subscriber: Subscriber,
    store: Store,
    cursor: i64,
    events: Result<Vec<OutboxRow>>,
    relay: Relay,
    after: Store,
    rows: Result<Vec<OutboxRow>>,
)
    requires
        changes_polled(subscriber, store, cursor, events),
        relay_answered(relay, store, after, rows),
    ensures
        events is Err <==> subscriber.batch_size < 0,
        rows is Err <==> relay.batch_size < 0,
        rows is Err ==> after.outbox@ == store.outbox@,
        rows matches Ok(found) ==> relay_polled(store, after, relay.batch_size as int, found@),
{
}

proof fn lemma_in_feed(row: OutboxRow, entity_type: Seq<char>)
    requires
        is_plain(entity_type),
    ensures
        in_feed(row, event_pattern(entity_type)) <==> row.kind is Event && has_prefix(
            row.key@,
            entity_type + ":"@,
        ),
{
    reveal_strlit(":");
    let head = entity_type + ":"@;
    assert forall|i: int| 0 <= i < head.len() implies {
        let c = #[trigger] head[i];
        c != '%' && c != '_' && c != '\\'
    } by {
        if i < entity_type.len() {
            assert(head[i] == entity_type[i]);
        }
    }
    plain_pattern_is_prefix(head, row.key@);
}

/// The relay delivers events that are pending and whose time has come, and touches nothing else: each
/// such row it takes is delivered now, with all its other columns as they were, and is handed out.
pub proof fn relay_delivers_pending_events(
    before: Store,
    after: Store,
    limit: int,
    found: Seq<OutboxRow>,
    i: int,
    k: int,
)
    requires
        before.wf(),
        relay_polled(before, after, limit, found),
    ensures
        after.outbox@.len() == before.outbox@.len(),
        found.len() <= limit,
        0 <= i < before.outbox@.len() && after.outbox@[i] != before.outbox@[i] ==> {
            &&& before.outbox@[i].kind is Event
            &&& before.outbox@[i].status is Pending
            &&& before.outbox@[i].visible_at <= before.now
            &&& after.outbox@[i].status is Delivered
            &&& after.outbox@[i].delivered_at == Some(before.now)
            &&& after.outbox@[i] == (OutboxRow {
                status: after.outbox@[i].status,
                delivered_at: after.outbox@[i].delivered_at,
                ..before.outbox@[i]
            })
            &&& exists|q: int|
                0 <= q < found.len() && (#[trigger] found[q]).id == before.outbox@[i].id
        },
        0 <= k < found.len() ==> exists|q: int|
            {
                &&& 0 <= q < before.outbox@.len()
                &&& (#[trigger] before.outbox@[q]).id == found[k].id
                &&& before.outbox@[q].kind is Event
                &&& before.outbox@[q].status is Pending
                &&& before.outbox@[q].visible_at <= before.now
                &&& after.outbox@[q].status is Delivered
                &&& found[k].status is Delivered
                &&& found[k].key@ == before.outbox@[q].key@
                &&& found[k].payload@ == before.outbox@[q].payload@
                &&& found[k].metadata@ == before.outbox@[q].metadata@
                &&& found[k].delivered_at == Some(before.now)
                &&& found[k].created_at == before.outbox@[q].created_at
            },
{
    let rows = before.outbox@;
    let (places, order) = lemma_relay(before, after, limit, found);
    assert(rows.len() == before.outbox.len());
    if 0 <= i < rows.len() && after.outbox@[i] != rows[i] {
        assert(places.contains(i as usize));
        let p = places.index_of(i as usize);
        assert(places[p] == i as usize);
        assert(order.contains(i as usize));
        let q = order.index_of(i as usize);
        assert(order[q] == i as usize);
        assert(found[q].same(after.outbox@[order[q] as int]));
        assert(found[q].id == rows[i].id);
    }
    if 0 <= k < found.len() {
        let q = order[k];
        assert(order.contains(q));
        assert(places.contains(q));
        let p = places.index_of(q);
        assert(places[p] == q);
        assert(found[k].same(after.outbox@[order[k] as int]));
        assert(q as int as usize == q);
        assert(rows[q as int].id == found[k].id);
    }
}

/// As long as there is room, the relay leaves no event out that is pending and whose time has come.
/// Where there is not, it takes those of higher priority first, and of the same priority those of
/// lower identifiers.
pub proof fn relay_takes_the_most_urgent_events(
    before: Store,
    after: Store,
    limit: int,
    found: Seq<OutboxRow>,
    i: int,
    j: int,
)
    requires
        before.wf(),
        relay_polled(before, after, limit, found),
        0 <= i < before.outbox@.len(),
        before.outbox@[i].kind is Event,
        before.outbox@[i].status is Pending,
        before.outbox@[i].visible_at <= before.now,
    ensures
        found.len() < limit ==> after.outbox@[i].status is Delivered,
        0 <= j < before.outbox@.len() && after.outbox@[j] != before.outbox@[j]
            && !(after.outbox@[i].status is Delivered) ==> {
            ||| before.outbox@[j].priority > before.outbox@[i].priority
            ||| before.outbox@[j].priority == before.outbox@[i].priority && before.outbox@[j].id
                <= before.outbox@[i].id
        },
{
    let rows = before.outbox@;
    let (places, order) = lemma_relay(before, after, limit, found);
    let ranks = crate::outbox::Query::Undelivered { now: before.now }.ranks(rows);
    assert(rows.len() == before.outbox.len());
    assert(ranks[i] is Some);
    if !places.contains(i as usize) && 0 <= j < rows.len() && after.outbox@[j] != rows[j] {
        assert(places.contains(j as usize));
        let p = places.index_of(j as usize);
        assert(places[p] == j as usize);
        assert(crate::ranking::rank_le(ranks[places[p] as int]->0, ranks[i]->0));
    }
}

proof fn lemma_relay(before: Store, after: Store, limit: int, found: Seq<OutboxRow>) -> (r: (
    Seq<usize>,
    Seq<usize>,
))
    requires
        relay_polled(before, after, limit, found),
    ensures
        crate::ranking::first_ranked(
            crate::outbox::Query::Undelivered { now: before.now }.ranks(before.outbox@),
            r.0,
            limit,
        ),
        after.outbox@ == crate::relay::delivered_at(before.outbox@, r.0, before.now),
        crate::relay::rearranges(r.1, r.0),
        crate::outbox::copies_of(found, after.outbox@, r.1),
{
    choose|places: Seq<usize>, order: Seq<usize>|
        {
            &&& crate::ranking::first_ranked(
                crate::outbox::Query::Undelivered { now: before.now }.ranks(before.outbox@),
                places,
                limit,
            )
            &&& after.outbox@ == crate::relay::delivered_at(before.outbox@, places, before.now)
            &&& #[trigger] crate::relay::rearranges(order, places)
            &&& crate::outbox::copies_of(found, after.outbox@, order)
        }
}

/// A relay's step tells how many rows it took, and takes none of them only where there is none to take
/// or it takes none at a time.
pub proof fn relay_tells_how_many_rows_it_took(
    relay: Relay,
    before: Store,
    after: Store,
    event: RelayEvent,
    found: Seq<OutboxRow>,
    i: int,
)
    requires
        before.wf(),
        relay_stepped(relay, before, after, event, found),
    ensures
        relay.batch_size < 0 ==> event is Failed && after.outbox@ == before.outbox@ && found.len()
            == 0,
        relay.batch_size >= 0 ==> event is Polled && event->Polled_count == found.len()
            && relay_polled(before, after, relay.batch_size as int, found),
        relay.batch_size > 0 && 0 <= i < before.outbox@.len() && before.outbox@[i].kind is Event
            && before.outbox@[i].status is Pending && before.outbox@[i].visible_at <= before.now
            ==> found.len() > 0,
{
    if relay.batch_size > 0 && 0 <= i < before.outbox@.len() && before.outbox@[i].kind is Event
        && before.outbox@[i].status is Pending && before.outbox@[i].visible_at <= before.now {
        let limit = relay.batch_size as int;
        relay_takes_the_most_urgent_events(before, after, limit, found, i, i);
        relay_delivers_pending_events(before, after, limit, found, i, 0);
    }
}

/// Setting a subscriber's cursor changes nothing else of it and no other subscriber, and enters none.
pub proof fn setting_a_cursor_changes_nothing_else(
    subscribers: Map<Seq<char>, SubscriberRow>,
    id: Seq<char>,
    to: i64,
    other: Seq<char>,
)
    ensures
        with_cursor(subscribers, id, to).contains_key(other) == subscribers.contains_key(other),
        subscribers.contains_key(id) ==> with_cursor(subscribers, id, to)[id] == (SubscriberRow {
            last_seen_id: to,
            ..subscribers[id]
        }),
        other != id && subscribers.contains_key(other) ==> with_cursor(subscribers, id, to)[other]
            == subscribers[other],
{
}

/// A subscriber is as far behind as the highest identifier of an event of its entity type, of whatever
/// status, is beyond its cursor; without an event it counts from zero. There are no figures exactly
/// where there is no such subscriber.
pub proof fn lag_is_counted_from_the_latest_event(
    store: Store,
    r: Result<Option<SubscriberStats>>,
    id: Seq<char>,
    entity_id: Seq<char>,
    i: int,
)
    requires
        subscriber_counted(store, r, id),
    ensures
        r is Ok,
        r->Ok_0 is Some <==> store.subscribers@.contains_key(id),
        r matches Ok(Some(stats)) ==> {
            &&& stats.id@ == id
            &&& stats.entity_type@ == store.subscribers@[id].entity_type@
            &&& stats.last_seen_id == store.subscribers@[id].last_seen_id
            &&& stats.lag == stats.latest_outbox_id - stats.last_seen_id
            &&& (!stats.entity_type@.contains('\\') && 0 <= i < store.outbox@.len()
                && store.outbox@[i].kind is Event && store.outbox@[i].key@ == stats.entity_type@
                + ":"@ + entity_id ==> store.outbox@[i].id <= stats.latest_outbox_id)
            &&& (stats.latest_outbox_id != 0 ==> exists|j: int|
                {
                    &&& 0 <= j < store.outbox@.len()
                    &&& (#[trigger] store.outbox@[j]).id == stats.latest_outbox_id
                    &&& store.outbox@[j].kind is Event
                    &&& like(stats.entity_type@ + ":"@ + "%"@, store.outbox@[j].key@)
                    &&& is_plain(stats.entity_type@) ==> has_prefix(
                        store.outbox@[j].key@,
                        stats.entity_type@ + ":"@,
                    )
                })
            &&& stats.latest_outbox_id >= 0
        },
{
    let rows = store.outbox@;
    if let Ok(Some(stats)) = r {
        let entity_type = stats.entity_type@;
        let pattern = event_pattern(entity_type);
        crate::feed::latest_event_is_highest(rows, pattern);
        if !entity_type.contains('\\') && 0 <= i < rows.len() && rows[i].kind is Event
            && rows[i].key@ == entity_type + ":"@ + entity_id {
            lemma_own_key_matches(entity_type, entity_id);
            assert(in_feed(rows[i], pattern));
        }
        if stats.latest_outbox_id != 0 {
            let j = choose|j: int|
                0 <= j < rows.len() && in_feed(#[trigger] rows[j], pattern) && rows[j].id
                    == latest_event(rows, pattern);
            if is_plain(entity_type) {
                lemma_in_feed(rows[j], entity_type);
            }
            assert(rows[j].id == stats.latest_outbox_id);
        }
    }
}

proof fn lemma_own_key_matches(entity_type: Seq<char>, entity_id: Seq<char>)
    requires
        !entity_type.contains('\\'),
    ensures
        like(event_pattern(entity_type), entity_type + ":"@ + entity_id),
{
    reveal_strlit(":");
    let head = entity_type + ":"@;
    assert forall|c: int| 0 <= c < head.len() implies #[trigger] head[c] != '\\' by {
        if c < entity_type.len() {
            assert(head[c] == entity_type[c]);
            assert(entity_type.contains(head[c]));
        }
    }
    own_text_matches(head, entity_id);
}

/// A copy of a row agrees with it in every column.
pub proof fn copy_agrees_in_every_column(copy: OutboxRow, row: OutboxRow)
    requires
        copy.same(row),
    ensures
        copy.id == row.id,
        copy.kind == row.kind,
        copy.key@ == row.key@,
        copy.dedup_key is Some <==> row.dedup_key is Some,
        row.dedup_key matches Some(key) ==> copy.dedup_key->0@ == key@,
        copy.payload@ == row.payload@,
        copy.metadata@ == row.metadata@,
        copy.status == row.status,
        copy.attempts == row.attempts,
        copy.max_retries == row.max_retries,
        copy.priority == row.priority,
        copy.progress == row.progress,
        copy.visible_at == row.visible_at,
        copy.created_at == row.created_at,
        copy.delivered_at == row.delivered_at,
{
}

} // verus!
