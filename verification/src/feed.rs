//! What the library promises of events, snapshots and schedules as a whole.
use vstd::prelude::*;

use crate::admin::{purged, revived, unpurged};
use crate::change_feed::{published, ChangePublish};
use crate::error::Result;
use crate::json::Json;
use crate::outbox::{has_dedup, holds_dedup, is_active, Change};
use crate::reaper::Reaper;
use crate::relay::{failed, relay_polled, row_changed, with_outbox};
use crate::scheduler::{
    fired, firing_key, following_fire, listed_from, lists_schedule, schedules_listed, Schedule,
};
use crate::stats::latest_event;
use crate::store::{
    committed, held_ids, ids_of, inserted, rolled_back, with_snapshots, NewRow, NewSnapshot,
    SnapshotRow, Store, SubscriberRow, Transaction,
};
use crate::subscriber::{
    event_pattern, feed_answered, in_feed, is_ripe, lists_id, stands_in, subscriber_performed,
    subscriber_registered, Subscriber, SubscriberEvent, SubscriberStep,
};
use crate::task_queue::{claim_made, completed_with};
use crate::time::{Span, Timestamp};
use crate::types::{OutboxRow, Task};

verus! {

/// A subscriber's view of an entity type's events: the table, the identifiers of the events that
/// open transactions have written, the next identifier, the subscriber's cursor, and the events that
/// its handler has taken.
pub struct FeedState {
    pub rows: Seq<OutboxRow>,
    pub held: Set<i64>,
    pub next_id: i64,
    pub cursor: i64,
    pub handled: Set<i64>,
}

/// A store as a subscriber sees it.
pub open spec fn feed_state(store: Store, cursor: i64, handled: Set<i64>) -> FeedState {
    FeedState {
        rows: store.outbox@,
        held: held_ids(store),
        next_id: store.next_id,
        cursor,
        handled,
    }
}

/// Whether every event up to the cursor has been handled.
pub open spec fn none_skipped(state: FeedState, pattern: Seq<char>) -> bool {
    forall|i: int|
        0 <= i < state.rows.len() && in_feed(#[trigger] state.rows[i], pattern) && state.rows[i].id
            <= state.cursor ==> state.handled.contains(state.rows[i].id)
}

/// Whether the cursor has passed no event that is still to be committed or written.
pub open spec fn cursor_waits(state: FeedState, pattern: Seq<char>) -> bool {
    &&& state.cursor < state.next_id
    &&& is_ripe(state.cursor, state.held)
    &&& forall|h: i64| #[trigger] state.held.contains(h) ==> h < state.next_id
    &&& forall|i: int|
        0 <= i < state.rows.len() && in_feed(#[trigger] state.rows[i], pattern) ==> state.rows[i].id
            < state.next_id
}

/// Whether two tables hold the same messages, whatever has become of them.
pub open spec fn same_messages(a: Seq<OutboxRow>, b: Seq<OutboxRow>) -> bool {
    &&& a.len() == b.len()
    &&& forall|i: int|
        0 <= i < a.len() ==> {
            &&& (#[trigger] a[i]).id == b[i].id
            &&& a[i].kind == b[i].kind
            &&& a[i].key@ == b[i].key@
        }
}

/// Whether the handler takes the first few of the events behind the cursor, which then stands at the
/// last of them.
pub open spec fn events_taken(a: FeedState, b: FeedState, pattern: Seq<char>) -> bool {
    exists|limit: int, found: Seq<OutboxRow>, taken: int|
        {
            &&& #[trigger] feed_answered(a.rows, pattern, a.cursor, a.held, limit, found)
            &&& 0 < taken <= found.len()
            &&& b.cursor == (#[trigger] found[taken - 1]).id
            &&& b.handled == a.handled.union(ids_of(found.take(taken)))
            &&& b == (FeedState { cursor: b.cursor, handled: b.handled, ..a })
        }
}

/// Whether transactions go on: they write events under identifiers not given out before, commit
/// events that they have written, in whatever order, or give them up. Other rows may be added.
pub open spec fn events_written(a: FeedState, b: FeedState, pattern: Seq<char>) -> bool {
    &&& b == (FeedState { rows: b.rows, held: b.held, next_id: b.next_id, ..a })
    &&& a.next_id <= b.next_id
    &&& forall|h: i64| #[trigger]
        b.held.contains(h) ==> a.held.contains(h) || a.next_id <= h < b.next_id
    &&& exists|added: Seq<OutboxRow>|
        {
            &&& b.rows == #[trigger] (a.rows + added)
            &&& forall|i: int|
                0 <= i < added.len() && in_feed(#[trigger] added[i], pattern) ==> a.held.contains(
                    added[i].id,
                )
        }
}

/// Whether rows are deleted.
pub open spec fn rows_deleted(a: FeedState, b: FeedState) -> bool {
    &&& b == (FeedState { rows: b.rows, ..a })
    &&& forall|i: int| 0 <= i < b.rows.len() ==> a.rows.contains(#[trigger] b.rows[i])
}

/// Whether one state follows from another in one step: the handler takes events; transactions go on;
/// the cursor is moved back; rows are deleted; or something becomes of rows.
pub open spec fn feed_step(a: FeedState, b: FeedState, pattern: Seq<char>) -> bool {
    ||| events_taken(a, b, pattern)
    ||| events_written(a, b, pattern)
    ||| b == (FeedState { cursor: b.cursor, ..a }) && b.cursor <= a.cursor
    ||| rows_deleted(a, b)
    ||| b == (FeedState { rows: b.rows, ..a }) && same_messages(a.rows, b.rows)
}

proof fn lemma_taken(a: FeedState, b: FeedState, pattern: Seq<char>)
    requires
        none_skipped(a, pattern),
        cursor_waits(a, pattern),
        events_taken(a, b, pattern),
    ensures
        none_skipped(b, pattern),
        cursor_waits(b, pattern),
{
    let (limit, found, taken) = choose|limit: int, found: Seq<OutboxRow>, taken: int|
        {
            &&& #[trigger] feed_answered(a.rows, pattern, a.cursor, a.held, limit, found)
            &&& 0 < taken <= found.len()
            &&& b.cursor == (#[trigger] found[taken - 1]).id
            &&& b.handled == a.handled.union(ids_of(found.take(taken)))
            &&& b == (FeedState { cursor: b.cursor, handled: b.handled, ..a })
        };
    let last = found[taken - 1];
    assert(stands_in(last, a.rows) && is_ripe(last.id, a.held));
    assert forall|i: int|
        0 <= i < b.rows.len() && in_feed(#[trigger] b.rows[i], pattern) && b.rows[i].id
            <= b.cursor implies b.handled.contains(b.rows[i].id) by {
        let id = a.rows[i].id;
        if id > a.cursor {
            assert(is_ripe(id, a.held)) by {
                assert forall|h: i64| #[trigger] a.held.contains(h) implies id < h by {}
            }
            assert(lists_id(found, id)) by {
                if !lists_id(found, id) {
                    assert(found[taken - 1].id < id);
                }
            }
            let k = choose|k: int| 0 <= k < found.len() && (#[trigger] found[k]).id == id;
            if k >= taken {
                assert(found[taken - 1].id < found[k].id);
            }
            assert(found.take(taken)[k].id == id);
            assert(ids_of(found.take(taken)).contains(id));
        }
    }
    let i = choose|i: int| 0 <= i < a.rows.len() && last.same(#[trigger] a.rows[i]);
    assert(in_feed(a.rows[i], pattern));
}

proof fn lemma_written(a: FeedState, b: FeedState, pattern: Seq<char>)
    requires
        none_skipped(a, pattern),
        cursor_waits(a, pattern),
        events_written(a, b, pattern),
    ensures
        none_skipped(b, pattern),
        cursor_waits(b, pattern),
{
    let added = choose|added: Seq<OutboxRow>|
        {
            &&& b.rows == #[trigger] (a.rows + added)
            &&& forall|i: int|
                0 <= i < added.len() && in_feed(#[trigger] added[i], pattern) ==> a.held.contains(
                    added[i].id,
                )
        };
    assert forall|i: int| 0 <= i < b.rows.len() && in_feed(#[trigger] b.rows[i], pattern) implies (
    b.rows[i].id <= b.cursor ==> b.handled.contains(b.rows[i].id)) && b.rows[i].id
        < b.next_id by {
        if i >= a.rows.len() {
            assert(added[i - a.rows.len()] == b.rows[i]);
        } else {
            assert(a.rows[i] == b.rows[i]);
        }
    }
}

proof fn lemma_feed_step(a: FeedState, b: FeedState, pattern: Seq<char>)
    requires
        none_skipped(a, pattern),
        cursor_waits(a, pattern),
        feed_step(a, b, pattern),
    ensures
        none_skipped(b, pattern),
        cursor_waits(b, pattern),
{
    if events_taken(a, b, pattern) {
        lemma_taken(a, b, pattern);
    } else if events_written(a, b, pattern) {
        lemma_written(a, b, pattern);
    } else if rows_deleted(a, b) {
        assert forall|i: int| 0 <= i < b.rows.len() && in_feed(
            #[trigger] b.rows[i],
            pattern,
        ) implies (b.rows[i].id <= b.cursor ==> b.handled.contains(b.rows[i].id)) && b.rows[i].id
            < b.next_id by {
            let j = a.rows.index_of(b.rows[i]);
            assert(a.rows[j] == b.rows[i]);
        }
    } else if same_messages(a.rows, b.rows) {
        assert forall|i: int| 0 <= i < b.rows.len() && in_feed(
            #[trigger] b.rows[i],
            pattern,
        ) implies (b.rows[i].id <= b.cursor ==> b.handled.contains(b.rows[i].id)) && b.rows[i].id
            < b.next_id by {
            assert(a.rows[i].id == b.rows[i].id);
            assert(in_feed(a.rows[i], pattern));
        }
    }
}

/// No event is skipped: from a cursor before all events, through any number of steps, every event in
/// the table up to the cursor has been handled, in whatever order the events are committed.
pub proof fn no_event_is_skipped(states: Seq<FeedState>, pattern: Seq<char>)
    requires
        states.len() > 0,
        none_skipped(states[0], pattern),
        cursor_waits(states[0], pattern),
        forall|i: int|
            0 <= i < states.len() - 1 ==> feed_step(#[trigger] states[i], states[i + 1], pattern),
    ensures
        none_skipped(states.last(), pattern),
        cursor_waits(states.last(), pattern),
    decreases states.len(),
{
    if states.len() > 1 {
        let earlier = states.drop_last();
        assert forall|i: int| 0 <= i < earlier.len() - 1 implies feed_step(
            #[trigger] earlier[i],
            earlier[i + 1],
            pattern,
        ) by {
            assert(earlier[i] == states[i]);
        }
        no_event_is_skipped(earlier, pattern);
        assert(feed_step(states[states.len() - 2], states.last(), pattern));
        lemma_feed_step(states[states.len() - 2], states.last(), pattern);
    }
}

/// A subscriber's cursor before all events has passed none.
pub proof fn new_subscriber_skips_nothing(store: Store, pattern: Seq<char>, handled: Set<i64>)
    requires
        store.wf(),
    ensures
        none_skipped(feed_state(store, 0, handled), pattern),
        cursor_waits(feed_state(store, 0, handled), pattern),
{
    let state = feed_state(store, 0, handled);
    assert forall|h: i64| #[trigger] state.held.contains(h) implies 0 < h < store.next_id by {
        let k = store.held@.index_of(h);
        assert(store.held@[k] == h);
    }
}

/// A transaction that has ended holds no event back, and without open transactions none is held
/// back.
pub proof fn ended_transactions_hold_nothing_back(tx: Transaction, before: Store, after: Store)
    requires
        rolled_back(tx, before, after) || exists|r: Result<()>| #[trigger]
            committed(tx, before, after, r),
    ensures
        forall|i: int|
            0 <= i < tx.rows@.len() ==> !held_ids(after).contains((#[trigger] tx.rows@[i]).id),
        held_ids(before).subset_of(ids_of(tx.rows@)) ==> forall|id: i64| #[trigger]
            is_ripe(id, held_ids(after)),
{
    assert forall|i: int| 0 <= i < tx.rows@.len() implies !held_ids(after).contains(
        (#[trigger] tx.rows@[i]).id,
    ) by {
        assert(ids_of(tx.rows@).contains(tx.rows@[i].id));
    }
}

/// Reading events behind the cursor and taking the first few of them is a step of the feed.
pub proof fn handling_is_a_feed_step(
    subscriber: Subscriber,
    store: Store,
    cursor: i64,
    handled: Set<i64>,
    found: Seq<OutboxRow>,
    taken: int,
)
    requires
        subscriber_performed(
            subscriber,
            store,
            store,
            SubscriberStep::Poll { after: cursor },
            Seq::empty(),
            Some(SubscriberEvent::Polled { count: found.len() as usize }),
            Some(found),
        ),
        0 < taken <= found.len(),
    ensures
        feed_step(
            feed_state(store, cursor, handled),
            feed_state(store, found[taken - 1].id, handled.union(ids_of(found.take(taken)))),
            event_pattern(subscriber.entity_type@),
        ),
{
    let a = feed_state(store, cursor, handled);
    let b = feed_state(store, found[taken - 1].id, handled.union(ids_of(found.take(taken))));
    let pattern = event_pattern(subscriber.entity_type@);
    let limit = subscriber.batch_size as int;
    assert(feed_answered(a.rows, pattern, a.cursor, a.held, limit, found));
    assert(b.cursor == found[taken - 1].id);
    assert(events_taken(a, b, pattern));
}

/// Writing to a transaction, committing it and giving it up are steps of the feed, and so is the
/// firing of a schedule.
pub proof fn transactions_are_feed_steps(
    before: Store,
    after: Store,
    cursor: i64,
    handled: Set<i64>,
    pattern: Seq<char>,
)
    requires
        ({
            ||| exists|tx: Transaction, tx_after: Transaction, r: Result<i64>, new: NewRow| #[trigger]
                inserted(tx, before, tx_after, after, r, new)
            ||| exists|tx: Transaction, r: Result<()>| #[trigger]
                committed(tx, before, after, r) && tx.fits(before)
            ||| exists|tx: Transaction| #[trigger] rolled_back(tx, before, after)
            ||| exists|schedule: Schedule, clock: Timestamp| #[trigger]
                fired(before, after, schedule, clock)
        }),
    ensures
        feed_step(
            feed_state(before, cursor, handled),
            feed_state(after, cursor, handled),
            pattern,
        ),
{
    let a = feed_state(before, cursor, handled);
    let b = feed_state(after, cursor, handled);
    let none = Seq::<OutboxRow>::empty();
    assert(a.rows + none =~= a.rows);
    if exists|tx: Transaction, tx_after: Transaction, r: Result<i64>, new: NewRow| #[trigger]
        inserted(tx, before, tx_after, after, r, new) {
        let (tx, tx_after, r, new) = choose|
            tx: Transaction,
            tx_after: Transaction,
            r: Result<i64>,
            new: NewRow,
        | #[trigger]
            inserted(tx, before, tx_after, after, r, new);
        assert forall|h: i64| #[trigger] b.held.contains(h) implies a.held.contains(h) || a.next_id
            <= h < b.next_id by {
            let k = after.held@.index_of(h);
            assert(after.held@[k] == h);
            if k < before.held@.len() {
                assert(before.held@[k] == after.held@[k]);
            }
        }
        assert(b.rows == a.rows + none);
        assert(events_written(a, b, pattern));
    } else if exists|tx: Transaction, r: Result<()>| #[trigger]
        committed(tx, before, after, r) && tx.fits(before) {
        let (tx, r) = choose|tx: Transaction, r: Result<()>| #[trigger]
            committed(tx, before, after, r) && tx.fits(before);
        if after.outbox == before.outbox {
            assert(b.rows == a.rows + none);
        } else {
            let added = tx.rows@;
            assert(b.rows == a.rows + added);
            assert forall|i: int| 0 <= i < added.len() && in_feed(
                #[trigger] added[i],
                pattern,
            ) implies a.held.contains(added[i].id) by {}
        }
        assert(events_written(a, b, pattern));
    } else if exists|tx: Transaction| #[trigger] rolled_back(tx, before, after) {
        assert(b.rows == a.rows + none);
        assert(events_written(a, b, pattern));
    } else {
        let (schedule, clock) = choose|schedule: Schedule, clock: Timestamp| #[trigger]
            fired(before, after, schedule, clock);
        if holds_dedup(before.outbox@, firing_key(schedule.id@, clock)) {
            assert(b.rows == a.rows + none);
        } else {
            let added = seq![after.outbox@.last()];
            assert(b.rows =~= a.rows + added);
            assert(b.rows == a.rows + added);
        }
        assert(events_written(a, b, pattern));
    }
}

/// Claims, changes of rows, results and the relay are steps of the feed: they leave the messages of
/// the table as they are.
pub proof fn row_changes_are_feed_steps(
    before: Store,
    after: Store,
    cursor: i64,
    handled: Set<i64>,
    pattern: Seq<char>,
)
    requires
        ({
            ||| exists|r: Result<Option<Task>>, queue: Seq<char>, timeout: Span| #[trigger]
                claim_made(before, after, r, queue, timeout)
            ||| exists|id: i64, change: Change| #[trigger] row_changed(before, after, id, change)
            ||| exists|r: Result<()>, id: i64, max_retries: i32, attempts: i32| #[trigger]
                failed(before, after, r, id, max_retries, attempts)
            ||| exists|r: Result<()>, id: i64| #[trigger] revived(before, after, r, id)
            ||| exists|id: i64, queue: Seq<char>, result: Json| #[trigger]
                completed_with(before, after, id, queue, result)
            ||| after == with_outbox(before, after) && exists|limit: int, found: Seq<OutboxRow>|
                #[trigger] relay_polled(before, after, limit, found)
        }),
    ensures
        same_messages(before.outbox@, after.outbox@),
        feed_step(
            feed_state(before, cursor, handled),
            feed_state(after, cursor, handled),
            pattern,
        ),
{
}

proof fn lemma_filter_keeps_rows(rows: Seq<OutboxRow>, keep: spec_fn(OutboxRow) -> bool)
    ensures
        forall|i: int|
            0 <= i < rows.filter(keep).len() ==> rows.contains(#[trigger] rows.filter(keep)[i]),
{
    assert forall|i: int| 0 <= i < rows.filter(keep).len() implies rows.contains(
        #[trigger] rows.filter(keep)[i],
    ) by {
        let j = crate::reaper::lemma_filtered_from(rows, keep, i);
        assert(rows[j] == rows.filter(keep)[i]);
    }
}

/// The reaper's deletions and those of a queue's rows are steps of the feed.
pub proof fn deletions_are_feed_steps(
    before: Store,
    after: Store,
    cursor: i64,
    handled: Set<i64>,
    pattern: Seq<char>,
)
    requires
        after == (Store { outbox: after.outbox, inbox: after.inbox, ..before }),
        ({
            ||| exists|reaper: Reaper, now: Timestamp|
                after.outbox@ == #[trigger] reaper.kept(before.outbox@, now)
            ||| exists|queue: Seq<char>, status: Seq<char>|
                after.outbox@ == #[trigger] purged(before.outbox@, queue, status)
        }),
    ensures
        feed_step(
            feed_state(before, cursor, handled),
            feed_state(after, cursor, handled),
            pattern,
        ),
{
    let a = feed_state(before, cursor, handled);
    let b = feed_state(after, cursor, handled);
    if exists|reaper: Reaper, now: Timestamp|
        after.outbox@ == #[trigger] reaper.kept(before.outbox@, now) {
        let (reaper, now) = choose|reaper: Reaper, now: Timestamp|
            after.outbox@ == #[trigger] reaper.kept(before.outbox@, now);
        let keep = |row: OutboxRow| !reaper.expired(row, now);
        lemma_filter_keeps_rows(a.rows, keep);
        assert(b.rows == a.rows.filter(keep));
    } else {
        let (queue, status) = choose|queue: Seq<char>, status: Seq<char>|
            after.outbox@ == #[trigger] purged(before.outbox@, queue, status);
        let keep = unpurged(queue, status);
        lemma_filter_keeps_rows(a.rows, keep);
        assert(b.rows == a.rows.filter(keep));
    }
    assert(rows_deleted(a, b));
}

/// A row gets a higher identifier than all that have been given out.
pub proof fn new_row_gets_the_next_identifier(
    tx: Transaction,
    store: Store,
    tx_after: Transaction,
    store_after: Store,
    id: i64,
    new: NewRow,
)
    requires
        inserted(tx, store, tx_after, store_after, Ok(id), new),
    ensures
        tx_after.rows@.last().id == id,
        id == store.next_id,
        store_after.next_id == id + 1,
{
}

/// The cursor moves to an event only after the handler has taken it.
pub proof fn cursor_follows_handler(step: SubscriberStep, event: SubscriberEvent, listening: bool)
    ensures
        !(step is Advance) ==> (step.after(
            event,
            listening,
        ) matches SubscriberStep::Advance { index, count } ==> step == (SubscriberStep::Handle {
            index,
            count,
        }) && event == (SubscriberEvent::Handled { ok: true })),
        step matches SubscriberStep::Handle { .. } && event == (SubscriberEvent::Handled {
            ok: false,
        }) ==> step.after(event, listening) is Wait,
{
}

/// A subscriber that has stopped stays so, and one that is told to stop when it asks reads no
/// further events.
pub proof fn stopped_subscriber_reads_nothing(event: SubscriberEvent, listening: bool)
    ensures
        SubscriberStep::Stop.after(event, listening) is Stop,
        SubscriberStep::Check.after(SubscriberEvent::Token { cancelled: true }, listening) is Stop,
        forall|listen: bool|
            (#[trigger] SubscriberStep::Wait { listen }.after(
                SubscriberEvent::Cancelled,
                listening,
            )) is Stop,
{
}

/// A subscriber that listens and has no event left in hand wakes when an event of its entity type is
/// published: after it has found none, and after it has taken all that it found.
pub proof fn idle_subscriber_wakes_on_notification(after: i64, index: usize, count: usize)
    requires
        index + 1 >= count,
    ensures
        ({
            let listens = SubscriberStep::Wait { listen: true };
            &&& SubscriberStep::Poll { after }.after(SubscriberEvent::Polled { count: 0 }, true)
                == listens
            &&& SubscriberStep::Advance { index, count }.after(
                SubscriberEvent::Advanced { ok: true },
                true,
            ) == listens
            &&& listens.after(SubscriberEvent::Notified { ours: true }, true) is Check
            &&& listens.after(SubscriberEvent::Elapsed, true) is Check
        }),
{
}

/// An event whose handler failed is the first to come again, behind those that were taken before it.
pub proof fn failed_event_comes_again(
    rows: Seq<OutboxRow>,
    pattern: Seq<char>,
    cursor: i64,
    held: Set<i64>,
    limit: int,
    found: Seq<OutboxRow>,
    taken: int,
    next_held: Set<i64>,
    next_limit: int,
    next: Seq<OutboxRow>,
)
    requires
        feed_answered(rows, pattern, cursor, held, limit, found),
        0 <= taken < found.len(),
        next_limit > 0,
        forall|h: i64, i: int| #[trigger]
            next_held.contains(h) && !held.contains(h) && 0 <= i < rows.len() ==> (
            #[trigger] rows[i]).id < h,
        feed_answered(
            rows,
            pattern,
            if taken > 0 {
                found[taken - 1].id
            } else {
                cursor
            },
            next_held,
            next_limit,
            next,
        ),
    ensures
        next.len() > 0,
        next[0].id == found[taken].id,
{
    let reached = if taken > 0 {
        found[taken - 1].id
    } else {
        cursor
    };
    let failed = found[taken];
    assert(stands_in(failed, rows));
    let i = choose|i: int| 0 <= i < rows.len() && failed.same(#[trigger] rows[i]);
    if taken > 0 {
        assert(found[taken - 1].id < found[taken].id);
    }
    assert(in_feed(rows[i], pattern) && rows[i].id > reached);
    assert(is_ripe(rows[i].id, next_held)) by {
        assert forall|h: i64| #[trigger] next_held.contains(h) implies rows[i].id < h by {
            if held.contains(h) {
                assert(is_ripe(found[taken].id, held));
            }
        }
    }
    if next.len() == 0 {
        assert(lists_id(next, rows[i].id));
    }
    let first = next[0];
    if lists_id(next, failed.id) {
        let k = choose|k: int| 0 <= k < next.len() && (#[trigger] next[k]).id == failed.id;
        if k > 0 {
            assert(next[0].id < next[k].id);
        }
    } else {
        assert(first.id < rows[i].id);
    }
    assert(first.id <= failed.id);
    if first.id < failed.id {
        assert(stands_in(first, rows));
        let j = choose|j: int| 0 <= j < rows.len() && first.same(#[trigger] rows[j]);
        if taken > 0 {
            assert(found[taken - 1].id > cursor);
        }
        assert(in_feed(rows[j], pattern) && rows[j].id > cursor);
        if !lists_id(found, rows[j].id) {
            assert(found[taken].id < rows[j].id);
        }
        let k = choose|k: int| 0 <= k < found.len() && (#[trigger] found[k]).id == first.id;
        if k > taken {
            assert(found[taken].id < found[k].id);
        } else if k < taken - 1 {
            assert(found[k].id < found[taken - 1].id);
        }
    }
}

/// A subscriber that comes back resumes behind its cursor.
pub proof fn registration_keeps_cursor(
    before: Map<Seq<char>, SubscriberRow>,
    after: Map<Seq<char>, SubscriberRow>,
    subscriber: Subscriber,
    now: Timestamp,
)
    requires
        subscriber_registered(before, after, subscriber, now),
    ensures
        before.contains_key(subscriber.id@) ==> after[subscriber.id@].last_seen_id
            == before[subscriber.id@].last_seen_id,
        !before.contains_key(subscriber.id@) ==> after[subscriber.id@].last_seen_id == 0,
{
}

/// The latest event is the one with the highest identifier.
pub proof fn latest_event_is_highest(rows: Seq<OutboxRow>, pattern: Seq<char>)
    ensures
        latest_event(rows, pattern) >= 0,
        forall|i: int|
            0 <= i < rows.len() && in_feed(#[trigger] rows[i], pattern) ==> rows[i].id
                <= latest_event(rows, pattern),
        latest_event(rows, pattern) > 0 ==> exists|i: int|
            0 <= i < rows.len() && in_feed(#[trigger] rows[i], pattern) && rows[i].id
                == latest_event(rows, pattern),
    decreases rows.len(),
{
    if rows.len() > 0 {
        let before = rows.drop_last();
        latest_event_is_highest(before, pattern);
        assert forall|i: int| 0 <= i < rows.len() && in_feed(#[trigger] rows[i], pattern) implies rows[i].id
            <= latest_event(rows, pattern) by {
            if i < before.len() {
                assert(before[i] == rows[i]);
            }
        }
        if latest_event(rows, pattern) > 0 {
            if latest_event(rows, pattern) == latest_event(before, pattern) {
                let i = choose|i: int|
                    0 <= i < before.len() && in_feed(#[trigger] before[i], pattern) && before[i].id
                        == latest_event(before, pattern);
                assert(rows[i] == before[i]);
            } else {
                assert(rows[rows.len() - 1] == rows.last());
            }
        }
    }
}

/// Once the event is committed, the entity's snapshot is the state that was published.
pub proof fn snapshot_is_latest_state(
    tx: Transaction,
    store: Store,
    tx_after: Transaction,
    store_after: Store,
    id: i64,
    event: ChangePublish,
    table: Map<(Seq<char>, Seq<char>), SnapshotRow>,
)
    requires
        published(tx, store, tx_after, store_after, Ok(id), event),
    ensures
        ({
            let committed = with_snapshots(table, tx_after.snapshots@, tx_after.started_at);
            let key = (event.entity_type@, event.entity_id@);
            &&& committed.contains_key(key)
            &&& committed[key].state@ == event.state@
            &&& committed[key].version@ == event.schema_version@
        }),
{
    let snapshot = choose|snapshot: NewSnapshot| #[trigger]
        event.shows(snapshot) && tx_after.snapshots@ == tx.snapshots@.push(snapshot);
    assert(tx_after.snapshots@.last() == snapshot);
}

/// Snapshots of other entities stay as they are.
pub proof fn other_snapshots_stay(
    table: Map<(Seq<char>, Seq<char>), SnapshotRow>,
    snapshots: Seq<NewSnapshot>,
    at: Timestamp,
    key: (Seq<char>, Seq<char>),
)
    requires
        forall|i: int|
            0 <= i < snapshots.len() ==> ((#[trigger] snapshots[i]).entity_type@,
            snapshots[i].entity_id@) != key,
    ensures
        with_snapshots(table, snapshots, at).contains_key(key) == table.contains_key(key),
        table.contains_key(key) ==> with_snapshots(table, snapshots, at)[key] == table[key],
    decreases snapshots.len(),
{
    if snapshots.len() > 0 {
        let before = snapshots.drop_last();
        assert forall|i: int| 0 <= i < before.len() implies ((#[trigger] before[i]).entity_type@,
        before[i].entity_id@) != key by {
            assert(before[i] == snapshots[i]);
        }
        other_snapshots_stay(table, before, at, key);
        assert(snapshots.last() == snapshots[snapshots.len() - 1]);
    }
}

/// A schedule that is switched off does not fire, and neither does one whose time has not come.
pub proof fn only_due_schedules_fire(
    schedules: Map<Seq<char>, Schedule>,
    now: Timestamp,
    due: Seq<Schedule>,
    id: Seq<char>,
)
    requires
        schedules_listed(schedules, Some(now), 100, due),
        schedules.contains_key(id),
        !schedules[id].enabled || schedules[id].next_fire > now,
    ensures
        !lists_schedule(due, id),
{
    if lists_schedule(due, id) {
        let k = choose|k: int| 0 <= k < due.len() && (#[trigger] due[k]).id@ == id;
        assert(listed_from(schedules, Some(now), due[k]));
    }
}

/// However many schedulers run, a schedule submits no second task in the same minute as long as the
/// first is still to be worked off.
pub proof fn schedule_fires_once_a_minute(
    before: Store,
    between: Store,
    second: Store,
    after: Store,
    schedule: Schedule,
    again: Schedule,
    clock: Timestamp,
    second_clock: Timestamp,
)
    requires
        fired(before, between, schedule, clock),
        second.outbox@ == between.outbox@,
        fired(second, after, again, second_clock),
        again.id@ == schedule.id@,
        second_clock as int / 60_000_000 == clock as int / 60_000_000,
    ensures
        after.outbox@ == between.outbox@,
{
    let key = firing_key(schedule.id@, clock);
    assert(firing_key(again.id@, second_clock) == key);
    if !holds_dedup(before.outbox@, key) {
        let last = between.outbox@.len() - 1;
        assert(is_active(between.outbox@[last]) && has_dedup(between.outbox@[last], key));
    }
    assert(holds_dedup(between.outbox@, key));
}

/// A schedule that has fired is due again when its interval is over.
pub proof fn fired_schedule_waits(
    before: Store,
    after: Store,
    schedule: Schedule,
    clock: Timestamp,
    now: Timestamp,
)
    requires
        fired(before, after, schedule, clock),
        before.schedules@.contains_key(schedule.id@),
        i64::MIN <= following_fire(schedule.cron@, clock) <= i64::MAX,
    ensures
        after.schedules@[schedule.id@].last_fired == Some(before.now),
        now < following_fire(schedule.cron@, clock) ==> !after.schedules@[schedule.id@].due(now),
{
}

} // verus!
