//! What the library promises of tasks, transactions and results as a whole.
use vstd::prelude::*;

use crate::admin::revived;
use crate::error::Result;
use crate::json::Json;
use crate::outbox::{has_dedup, holds_dedup, is_active, Change, Query};
use crate::ranking::first_ranked;
use crate::reaper::Reaper;
use crate::relay::{delivered_at, failed, failure_entered, relay_polled, row_changed};
use crate::retry::{attempts_in_range, failure_of};
use crate::scheduler::{fired, Schedule};
use crate::store::{inserted, NewRow, Store, Transaction};
use crate::task_queue::{
    claim_fits, claim_made, claimable, claimed_row, clamped, completed_with, extended,
    first_claimable, progress_found, result_found, BatchItem, TaskSubmit,
};
use crate::time::{later, Span, Timestamp};
use crate::types::{OutboxRow, Task, TaskResult};

verus! {

/// Whether the row with an identifier is in the table and still to be worked off.
pub open spec fn is_open(rows: Seq<OutboxRow>, id: i64) -> bool {
    exists|i: int| 0 <= i < rows.len() && (#[trigger] rows[i]).id == id && is_active(rows[i])
}

/// The row with an identifier, if the table has one, cannot be claimed from any queue.
pub open spec fn is_out_of_reach(rows: Seq<OutboxRow>, id: i64, now: Timestamp) -> bool {
    forall|i: int, queue: Seq<char>|
        0 <= i < rows.len() && (#[trigger] rows[i]).id == id ==> !#[trigger] claimable(
            rows[i],
            queue,
            now,
        )
}

/// The reaper deletes no task that is still to be worked off.
pub proof fn reaper_keeps_tasks(reaper: Reaper, rows: Seq<OutboxRow>, now: Timestamp, id: i64)
    requires
        is_open(rows, id),
    ensures
        is_open(reaper.kept(rows, now), id),
{
    let i = choose|i: int| 0 <= i < rows.len() && (#[trigger] rows[i]).id == id && is_active(rows[i]);
    reaper_deletes_only_expired(reaper, rows, now, i);
    let kept = reaper.kept(rows, now);
    let k = choose|k: int| 0 <= k < kept.len() && #[trigger] kept[k] == rows[i];
    assert(kept[k].id == id && is_active(kept[k]));
}

/// The reaper deletes exactly the rows whose retention is over.
pub proof fn reaper_deletes_only_expired(
    reaper: Reaper,
    rows: Seq<OutboxRow>,
    now: Timestamp,
    i: int,
)
    requires
        0 <= i < rows.len(),
    ensures
        !reaper.expired(rows[i], now) ==> exists|k: int|
            0 <= k < reaper.kept(rows, now).len() && #[trigger] reaper.kept(rows, now)[k]
                == rows[i],
        forall|k: int|
            0 <= k < reaper.kept(rows, now).len() ==> !reaper.expired(
                #[trigger] reaper.kept(rows, now)[k],
                now,
            ),
{
    let keep = |row: OutboxRow| !reaper.expired(row, now);
    let kept = reaper.kept(rows, now);
    assert forall|k: int| 0 <= k < kept.len() implies !reaper.expired(#[trigger] kept[k], now) by {
        let j = crate::reaper::lemma_filtered_from(rows, keep, k);
    }
    if !reaper.expired(rows[i], now) {
        let k = crate::reaper::lemma_filter_keeps(rows, keep, i);
        assert(kept[k] == rows[i]);
    }
}

/// A claimed task is out of reach until its visibility timeout is over, and from then on its queue
/// can claim it again.
pub proof fn claimed_task_resurfaces(
    before: Store,
    after: Store,
    task: Task,
    queue: Seq<char>,
    timeout: Span,
    now: Timestamp,
)
    requires
        before.wf(),
        claim_made(before, after, Ok(Some(task)), queue, timeout),
    ensures
        now < before.now + timeout.micros ==> is_out_of_reach(after.outbox@, task.id, now),
        now >= before.now + timeout.micros ==> exists|i: int|
            0 <= i < after.outbox@.len() && (#[trigger] after.outbox@[i]).id == task.id
                && claimable(after.outbox@[i], queue, now),
{
    let rows = after.outbox@;
    let i = choose|i: int| #[trigger]
        first_claimable(before.outbox@, queue, before.now, i) && claim_fits(before, i, timeout)
            && after.outbox@ == before.outbox@.update(
            i,
            claimed_row(before.outbox@[i], later(before.now, timeout)->0),
        ) && task.shows(after.outbox@[i]);
    assert(rows[i].id == task.id);
    if now < before.now + timeout.micros {
        assert forall|j: int, other: Seq<char>|
            0 <= j < rows.len() && (#[trigger] rows[j]).id == task.id implies !#[trigger] claimable(
            rows[j],
            other,
            now,
        ) by {
            if j != i {
                if i < j {
                    assert(before.outbox@[i].id != before.outbox@[j].id);
                } else {
                    assert(before.outbox@[j].id != before.outbox@[i].id);
                }
            }
        }
    } else {
        assert(claimable(rows[i], queue, now));
    }
}

/// Two claims do not take the same task while the first one's visibility timeout lasts.
pub proof fn no_double_delivery(
    before: Store,
    between: Store,
    second: Store,
    after: Store,
    first_task: Task,
    second_task: Task,
    queue: Seq<char>,
    timeout: Span,
    other_queue: Seq<char>,
    other_timeout: Span,
)
    requires
        before.wf(),
        claim_made(before, between, Ok(Some(first_task)), queue, timeout),
        second == (Store { now: second.now, ..between }),
        second.now < before.now + timeout.micros,
        claim_made(second, after, Ok(Some(second_task)), other_queue, other_timeout),
    ensures
        first_task.id != second_task.id,
{
    claimed_task_resurfaces(before, between, first_task, queue, timeout, second.now);
    let i = choose|i: int| #[trigger]
        first_claimable(second.outbox@, other_queue, second.now, i) && claim_fits(
            second,
            i,
            other_timeout,
        ) && after.outbox@ == second.outbox@.update(
            i,
            claimed_row(second.outbox@[i], later(second.now, other_timeout)->0),
        ) && second_task.shows(after.outbox@[i]);
    assert(claimable(second.outbox@[i], other_queue, second.now));
}

/// Every claim of a task counts as an attempt.
pub proof fn claim_counts_attempt(
    before: Store,
    after: Store,
    task: Task,
    queue: Seq<char>,
    timeout: Span,
    i: int,
)
    requires
        before.wf(),
        claim_made(before, after, Ok(Some(task)), queue, timeout),
        0 <= i < before.outbox@.len(),
        before.outbox@[i].id == task.id,
    ensures
        task.attempts == before.outbox@[i].attempts + 1,
        task.max_retries == before.outbox@[i].max_retries,
        task.payload@ == before.outbox@[i].payload@,
{
    let k = choose|k: int| #[trigger]
        first_claimable(before.outbox@, queue, before.now, k) && claim_fits(before, k, timeout)
            && after.outbox@ == before.outbox@.update(
            k,
            claimed_row(before.outbox@[k], later(before.now, timeout)->0),
        ) && task.shows(after.outbox@[k]);
    assert(after.outbox@[k].id == before.outbox@[k].id);
    if i < k {
        assert(before.outbox@[i].id != before.outbox@[k].id);
    } else if k < i {
        assert(before.outbox@[k].id != before.outbox@[i].id);
    }
}

/// A claim hands out a task of the queue and leaves the rows of all other queues as they are.
pub proof fn queues_are_isolated(
    before: Store,
    after: Store,
    r: Result<Option<Task>>,
    queue: Seq<char>,
    timeout: Span,
    i: int,
)
    requires
        claim_made(before, after, r, queue, timeout),
        0 <= i < before.outbox@.len(),
        before.outbox@[i].key@ != queue,
    ensures
        r matches Ok(Some(task)) ==> task.queue@ == queue,
        after.outbox@[i] == before.outbox@[i],
{
}

/// A task that is delayed cannot be claimed before its time.
pub proof fn delayed_task_waits(
    tx: Transaction,
    store: Store,
    tx_after: Transaction,
    store_after: Store,
    id: i64,
    task: TaskSubmit,
    delay: Span,
    queue: Seq<char>,
    now: Timestamp,
)
    requires
        inserted(tx, store, tx_after, store_after, Ok(id), task.new_row()),
        task.delay == Some(delay),
        now < tx.started_at + delay.micros,
    ensures
        tx_after.rows@.last().id == id,
        !claimable(tx_after.rows@.last(), queue, now),
{
}

/// A task that is done is never claimed again.
pub proof fn completed_task_is_gone(before: Store, after: Store, id: i64, now: Timestamp)
    requires
        row_changed(before, after, id, Change::Deliver { at: before.now }),
    ensures
        is_out_of_reach(after.outbox@, id, now),
{
    assert forall|i: int, queue: Seq<char>|
        0 <= i < after.outbox@.len() && (
        #[trigger] after.outbox@[i]).id == id implies !#[trigger] claimable(
        after.outbox@[i],
        queue,
        now,
    ) by {
        assert(before.outbox@[i].id == id);
    }
}

/// A deduplication key can be used again once its task is done.
pub proof fn dedup_key_is_free_after_completion(
    before: Store,
    after: Store,
    i: int,
    key: Seq<char>,
)
    requires
        before.wf(),
        0 <= i < before.outbox@.len(),
        is_active(before.outbox@[i]),
        has_dedup(before.outbox@[i], key),
        row_changed(before, after, before.outbox@[i].id, Change::Deliver { at: before.now }),
    ensures
        holds_dedup(before.outbox@, key),
        !holds_dedup(after.outbox@, key),
{
    let rows = before.outbox@;
    assert(holds_dedup(rows, key));
    assert forall|j: int| 0 <= j < after.outbox@.len() implies !(is_active(
        #[trigger] after.outbox@[j],
    ) && has_dedup(after.outbox@[j], key)) by {
        if j < i {
            assert(rows[j].id != rows[i].id);
            assert(is_active(rows[j]) ==> !crate::outbox::same_dedup(rows[j], rows[i]));
        } else if i < j {
            assert(rows[i].id != rows[j].id);
            assert(is_active(rows[j]) ==> !crate::outbox::same_dedup(rows[i], rows[j]));
        }
    }
}

/// A second task of a deduplication key is refused while the first is still to be worked off.
pub proof fn duplicate_is_refused(
    tx: Transaction,
    store: Store,
    tx_after: Transaction,
    store_after: Store,
    r: Result<i64>,
    task: TaskSubmit,
)
    requires
        inserted(tx, store, tx_after, store_after, r, task.new_row()),
        task.dedup_key is Some,
        holds_dedup(store.outbox@, task.dedup_key->0@),
    ensures
        r is Err,
        tx_after.aborted,
{
}

/// A task that failed as often as it may be tried is given up. Before that it is tried again, after
/// a delay of at least one second, doubled with every attempt after the first, and less than twice
/// that.
pub proof fn failure_retries_or_buries(
    before: Store,
    after: Store,
    id: i64,
    max_retries: i32,
    attempts: i32,
    i: int,
)
    requires
        attempts_in_range(max_retries, attempts),
        failed(before, after, Ok(()), id, max_retries, attempts),
        0 <= i < before.outbox@.len(),
        before.outbox@[i].id == id,
    ensures
        attempts >= max_retries ==> after.outbox@[i].status is Dead,
        attempts < max_retries ==> {
            let backoff = crate::retry::backoff(attempts) * 1_000_000;
            &&& after.outbox@[i].status is Pending
            &&& before.now + backoff <= after.outbox@[i].visible_at < before.now + 2 * backoff
        },
{
    let draw = choose|draw: u64| #[trigger]
        failure_entered(before, after, Ok(()), id, failure_of(max_retries, attempts, draw));
    if attempts < max_retries {
        crate::retry::retry_delay_bounds(attempts, draw);
    }
}

/// A row that was given up and brought back can be claimed at once, as if it had never been tried.
pub proof fn revived_task_is_claimable(before: Store, after: Store, i: int)
    requires
        0 <= i < before.outbox@.len(),
        before.outbox@[i].kind is Task,
        before.outbox@[i].status is Dead,
        revived(before, after, Ok(()), before.outbox@[i].id),
    ensures
        claimable(after.outbox@[i], before.outbox@[i].key@, after.now),
        after.outbox@[i].attempts == 0,
{
}

/// A heartbeat keeps a claimed task out of reach until the time that it asks for, and leaves all
/// other rows as they are.
pub proof fn heartbeat_extends_claim(
    before: Store,
    after: Store,
    i: int,
    extend_by: Span,
    queue: Seq<char>,
    now: Timestamp,
)
    requires
        0 <= i < before.outbox@.len(),
        extended(before, after, Ok(()), before.outbox@[i].id, extend_by),
    ensures
        before.outbox@[i].status is Claimed && now < before.now + extend_by.micros ==> !claimable(
            after.outbox@[i],
            queue,
            now,
        ),
        !(before.outbox@[i].status is Claimed) ==> after.outbox@[i] == before.outbox@[i],
        forall|j: int|
            0 <= j < before.outbox@.len() && before.outbox@[j].id != before.outbox@[i].id
                ==> #[trigger] after.outbox@[j] == before.outbox@[j],
{
}

/// The progress that was entered for a claimed task is what is read, kept between 0 and 100.
pub proof fn progress_reads_back(
    before: Store,
    after: Store,
    i: int,
    progress: i16,
    r: Result<Option<i16>>,
)
    requires
        before.wf(),
        0 <= i < before.outbox@.len(),
        before.outbox@[i].status is Claimed,
        row_changed(
            before,
            after,
            before.outbox@[i].id,
            Change::Progress { progress: clamped(progress) },
        ),
        progress_found(after, r, before.outbox@[i].id),
    ensures
        r == Result::<Option<i16>>::Ok(Some(clamped(progress))),
        0 <= clamped(progress) <= 100,
        0 <= progress <= 100 ==> clamped(progress) == progress,
{
    let id = before.outbox@[i].id;
    assert(after.outbox@[i].id == id);
    let k = choose|k: int|
        0 <= k < after.outbox@.len() && (#[trigger] after.outbox@[k]).id == id
            && after.outbox@[k].progress == r->Ok_0->0;
    assert(before.outbox@[k].id == id);
    if k < i {
        assert(before.outbox@[k].id != before.outbox@[i].id);
    } else if i < k {
        assert(before.outbox@[i].id != before.outbox@[k].id);
    }
}

/// The result that was stored for a task is what is read.
pub proof fn result_reads_back(
    before: Store,
    after: Store,
    task_id: i64,
    queue: Seq<char>,
    result: Json,
    r: Result<Option<TaskResult>>,
)
    requires
        completed_with(before, after, task_id, queue, result),
        result_found(after, r, task_id),
    ensures
        r matches Ok(Some(found)) && found.task_id == task_id && found.result@ == result@
            && found.completed_at == before.now,
        !before.results@.contains_key(task_id) ==> r->Ok_0->0.queue@ == queue,
{
}

/// What a transaction writes is not to be seen before it is committed.
pub proof fn uncommitted_rows_are_invisible(
    tx: Transaction,
    store: Store,
    tx_after: Transaction,
    store_after: Store,
    r: Result<i64>,
    new: NewRow,
)
    requires
        inserted(tx, store, tx_after, store_after, r, new),
    ensures
        store_after.outbox == store.outbox,
        store_after.snapshots == store.snapshots,
{
}

/// An item of a batch becomes the same row as a task of its own.
pub proof fn batch_item_is_a_task(item: BatchItem)
    ensures
        item.new_row() == (TaskSubmit {
            queue: item.queue,
            payload: item.payload,
            metadata: item.metadata,
            priority: item.priority,
            max_retries: item.max_retries,
            delay: Some(item.delay),
            dedup_key: None,
        }).new_row(),
{
}

/// An event that the relay has delivered is not delivered by it again.
pub proof fn relayed_event_is_not_relayed_again(
    before: Store,
    after: Store,
    limit: int,
    found: Seq<OutboxRow>,
    k: int,
    now: Timestamp,
)
    requires
        before.wf(),
        relay_polled(before, after, limit, found),
        0 <= k < found.len(),
    ensures
        found[k].kind is Event,
        found[k].status is Delivered,
        forall|i: int|
            0 <= i < after.outbox@.len() && (#[trigger] after.outbox@[i]).id == found[k].id
                ==> (Query::Undelivered { now }).rank(after.outbox@[i]) is None,
{
    let rows = before.outbox@;
    let (places, order) = choose|places: Seq<usize>, order: Seq<usize>|
        {
            &&& first_ranked(Query::Undelivered { now: before.now }.ranks(rows), places, limit)
            &&& after.outbox@ == delivered_at(rows, places, before.now)
            &&& #[trigger] crate::relay::rearranges(order, places)
            &&& crate::outbox::copies_of(found, after.outbox@, order)
        };
    let at = order[k];
    assert(found[k].same(after.outbox@[at as int]));
    assert(order.contains(at));
    assert(places.contains(at));
    let p = places.index_of(at);
    assert(places[p] == at);
    assert(Query::Undelivered { now: before.now }.ranks(rows)[at as int] is Some);
    assert(at as int as usize == at);
    assert(after.outbox@[at as int].status is Delivered);
    assert forall|i: int|
        0 <= i < after.outbox@.len() && (
        #[trigger] after.outbox@[i]).id == found[k].id implies (Query::Undelivered { now }).rank(
        after.outbox@[i],
    ) is None by {
        assert(rows[i].id == rows[at as int].id);
        if i < at {
            assert(rows[i].id != rows[at as int].id);
        } else if at < i {
            assert(rows[at as int].id != rows[i].id);
        }
    }
}

/// Whether the task with an identifier is in the table and still to be worked off.
pub open spec fn is_open_task(rows: Seq<OutboxRow>, id: i64) -> bool {
    exists|i: int|
        0 <= i < rows.len() && (#[trigger] rows[i]).id == id && rows[i].kind is Task && is_active(
            rows[i],
        )
}

/// Whether a store comes from another by one operation of the library that neither marks the task
/// with this identifier as done nor gives it up: a claim, a heartbeat, progress, another task's end,
/// a failure after which it is tried again, a round of the reaper, a commit or anything else that
/// only adds rows, the firing of a schedule, or a round of the relay.
pub open spec fn spares(before: Store, after: Store, id: i64) -> bool {
    ||| exists|r: Result<Option<Task>>, queue: Seq<char>, timeout: Span| #[trigger]
        claim_made(before, after, r, queue, timeout)
    ||| exists|other: i64, change: Change| #[trigger]
        row_changed(before, after, other, change) && (other != id || (!(change is Deliver) && !(
        change is Bury)))
    ||| exists|r: Result<()>, other: i64, max_retries: i32, attempts: i32| #[trigger]
        failed(before, after, r, other, max_retries, attempts) && (other != id || attempts
            < max_retries)
    ||| exists|reaper: Reaper| after.outbox@ == #[trigger] reaper.kept(before.outbox@, before.now)
    ||| exists|added: Seq<OutboxRow>| after.outbox@ == #[trigger] (before.outbox@ + added)
    ||| exists|schedule: Schedule, clock: Timestamp| #[trigger]
        fired(before, after, schedule, clock)
    ||| exists|limit: int, found: Seq<OutboxRow>| #[trigger]
        relay_polled(before, after, limit, found)
}

proof fn lemma_task_spared(before: Store, after: Store, id: i64)
    requires
        spares(before, after, id),
        is_open_task(before.outbox@, id),
    ensures
        is_open_task(after.outbox@, id),
{
    let rows = before.outbox@;
    let i = choose|i: int|
        0 <= i < rows.len() && (#[trigger] rows[i]).id == id && rows[i].kind is Task && is_active(
            rows[i],
        );
    if exists|reaper: Reaper| after.outbox@ == #[trigger] reaper.kept(rows, before.now) {
        let reaper = choose|reaper: Reaper|
            after.outbox@ == #[trigger] reaper.kept(rows, before.now);
        reaper_deletes_only_expired(reaper, rows, before.now, i);
        let k = choose|k: int|
            0 <= k < after.outbox@.len() && #[trigger] reaper.kept(rows, before.now)[k] == rows[i];
        assert(after.outbox@[k] == rows[i]);
    } else if exists|limit: int, found: Seq<OutboxRow>| #[trigger]
        relay_polled(before, after, limit, found) {
        let (limit, found) = choose|limit: int, found: Seq<OutboxRow>| #[trigger]
            relay_polled(before, after, limit, found);
        let (places, order) = choose|places: Seq<usize>, order: Seq<usize>|
            {
                &&& first_ranked(Query::Undelivered { now: before.now }.ranks(rows), places, limit)
                &&& after.outbox@ == delivered_at(rows, places, before.now)
                &&& #[trigger] crate::relay::rearranges(order, places)
                &&& crate::outbox::copies_of(found, after.outbox@, order)
            };
        let ranks = Query::Undelivered { now: before.now }.ranks(rows);
        assert(rows.len() == before.outbox.len());
        if places.contains(i as usize) {
            let p = places.index_of(i as usize);
            assert(ranks[places[p] as int] is Some);
        }
        assert(after.outbox@[i] == rows[i]);
    } else if exists|r: Result<()>, other: i64, max_retries: i32, attempts: i32| #[trigger]
        failed(before, after, r, other, max_retries, attempts) && (other != id || attempts
            < max_retries) {
        let (r, other, max_retries, attempts) = choose|
            r: Result<()>,
            other: i64,
            max_retries: i32,
            attempts: i32,
        | #[trigger]
            failed(before, after, r, other, max_retries, attempts) && (other != id || attempts
                < max_retries);
        let draw = choose|draw: u64| #[trigger]
            failure_entered(before, after, r, other, failure_of(max_retries, attempts, draw));
        assert(after.outbox@[i].id == id && is_active(after.outbox@[i]));
    } else if exists|added: Seq<OutboxRow>| after.outbox@ == #[trigger] (rows + added) {
        let added = choose|added: Seq<OutboxRow>| after.outbox@ == #[trigger] (rows + added);
        assert(after.outbox@[i] == rows[i]);
    } else {
        assert(after.outbox@[i].id == id && after.outbox@[i].kind is Task && is_active(
            after.outbox@[i],
        ));
    }
}

/// No task is lost: whatever happens, a task is still to be worked off until it is marked as done
/// or given up.
pub proof fn no_task_is_lost(stores: Seq<Store>, id: i64)
    requires
        stores.len() > 0,
        is_open_task(stores[0].outbox@, id),
        forall|i: int|
            0 <= i < stores.len() - 1 ==> spares(#[trigger] stores[i], stores[i + 1], id),
    ensures
        is_open_task(stores.last().outbox@, id),
    decreases stores.len(),
{
    if stores.len() > 1 {
        let earlier = stores.drop_last();
        assert forall|i: int| 0 <= i < earlier.len() - 1 implies spares(
            #[trigger] earlier[i],
            earlier[i + 1],
            id,
        ) by {
            assert(earlier[i] == stores[i]);
        }
        no_task_is_lost(earlier, id);
        assert(spares(stores[stores.len() - 2], stores.last(), id));
        lemma_task_spared(stores[stores.len() - 2], stores.last(), id);
    }
}

} // verus!
