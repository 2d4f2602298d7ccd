//! What becomes of tasks, column by column: submitting, claiming, completing, failing and reviving
//! them, and what a consumer's inbox remembers.
use vstd::arithmetic::power2::pow2;
use vstd::prelude::*;

use crate::admin::revived;
use crate::error::{DbError, Result, StrunkError};
use crate::json::Json;
use crate::relay::{completed, failed, failure_entered, with_outbox};
use crate::retry::{attempts_in_range, failure_of, retry_delay};
use crate::store::{
    committed, held_ids, ids_of, inserted, rolled_back, NewRow, Store, Transaction,
};
use crate::task_queue::{
    batch_inserted, claim_fits, claim_made, claimed_row, completed_with, extended, first_claimable,
    inbox_marked, progress_found, progressed, result_found, transposes, BatchColumns, BatchItem,
    TaskSubmit,
};
use crate::time::{later, Span, Timestamp};
use crate::types::{OutboxRow, Task, TaskResult};

verus! {

/// A task of the queue that is pending or claimed and whose time has come is never passed over: as
/// long as there is one, a claim does not come back empty, whatever the task's other columns hold.
pub proof fn visible_task_can_be_claimed(
    before: Store,
    after: Store,
    r: Result<Option<Task>>,
    queue: Seq<char>,
    timeout: Span,
    i: int,
)
    requires
        claim_made(before, after, r, queue, timeout),
        0 <= i < before.outbox@.len(),
        before.outbox@[i].kind is Task,
        before.outbox@[i].key@ == queue,
        before.outbox@[i].status is Pending || before.outbox@[i].status is Claimed,
        before.outbox@[i].visible_at <= before.now,
    ensures
        r != Result::<Option<Task>>::Ok(None),
        before.now + timeout.micros <= i64::MAX && (forall|j: int|
            0 <= j < before.outbox@.len() ==> (#[trigger] before.outbox@[j]).attempts < i32::MAX)
            ==> r matches Ok(Some(_)),
{
}

/// A claim that comes back empty changes nothing, and leaves no task of the queue that is pending or
/// claimed and whose time has come. A claim that is refused changes nothing either, and is refused
/// only where the timeout or the count of attempts leaves its range.
pub proof fn empty_claim_leaves_nothing_to_do(
    before: Store,
    after: Store,
    r: Result<Option<Task>>,
    queue: Seq<char>,
    timeout: Span,
)
    requires
        claim_made(before, after, r, queue, timeout),
        !(r matches Ok(Some(_))),
    ensures
        after.outbox@ == before.outbox@,
        r is Ok ==> forall|i: int|
            0 <= i < before.outbox@.len() && (#[trigger] before.outbox@[i]).kind is Task
                && before.outbox@[i].key@ == queue && before.outbox@[i].visible_at <= before.now ==> {
                &&& !(before.outbox@[i].status is Pending)
                &&& !(before.outbox@[i].status is Claimed)
            },
        r matches Err(e) ==> {
            &&& e == StrunkError::Database(DbError::OutOfRange)
            &&& exists|i: int|
                {
                    &&& 0 <= i < before.outbox@.len()
                    &&& (#[trigger] before.outbox@[i]).kind is Task
                    &&& before.outbox@[i].key@ == queue
                    &&& before.outbox@[i].status is Pending || before.outbox@[i].status is Claimed
                    &&& before.outbox@[i].visible_at <= before.now
                    &&& before.outbox@[i].attempts == i32::MAX || before.now + timeout.micros
                        > i64::MAX
                }
        },
{
    if let Ok(None) = r {
        assert forall|i: int|
            0 <= i < before.outbox@.len() && (#[trigger] before.outbox@[i]).kind is Task
                && before.outbox@[i].key@ == queue && before.outbox@[i].visible_at
                <= before.now implies !(before.outbox@[i].status is Pending) && !(
        before.outbox@[i].status is Claimed) by {
            if before.outbox@[i].status is Pending || before.outbox@[i].status is Claimed {
                visible_task_can_be_claimed(before, after, r, queue, timeout, i);
            }
        }
    }
    if let Err(e) = r {
        let i = choose|i: int| #[trigger]
            first_claimable(before.outbox@, queue, before.now, i) && !claim_fits(before, i, timeout);
        assert(before.outbox@[i].attempts == i32::MAX || before.now + timeout.micros > i64::MAX);
    }
}

/// What a claim hands out is a row of the queue that was pending or claimed and whose time had come.
/// That row is claimed now, for as long as was asked, and counts one attempt more; nothing else of it
/// has changed, and neither has any other row. No other such row has a higher priority, or the same
/// priority and a lower identifier.
pub proof fn claim_takes_the_most_urgent_task(
    before: Store,
    after: Store,
    task: Task,
    queue: Seq<char>,
    timeout: Span,
)
    requires
        claim_made(before, after, Ok(Some(task)), queue, timeout),
    ensures
        after.outbox@.len() == before.outbox@.len(),
        exists|i: int|
            {
                let row = before.outbox@[i];
                let claimed = #[trigger] after.outbox@[i];
                &&& 0 <= i < before.outbox@.len()
                &&& row.kind is Task
                &&& row.key@ == queue
                &&& row.status is Pending || row.status is Claimed
                &&& row.visible_at <= before.now
                &&& claimed.status is Claimed
                &&& claimed.visible_at == before.now + timeout.micros
                &&& claimed.attempts == row.attempts + 1
                &&& claimed == (OutboxRow {
                    status: claimed.status,
                    visible_at: claimed.visible_at,
                    attempts: claimed.attempts,
                    ..row
                })
                &&& task.id == row.id
                &&& task.queue@ == queue
                &&& task.payload@ == row.payload@
                &&& task.metadata@ == row.metadata@
                &&& task.attempts == row.attempts + 1
                &&& task.max_retries == row.max_retries
                &&& task.created_at == row.created_at
                &&& forall|j: int|
                    0 <= j < before.outbox@.len() && j != i ==> #[trigger] after.outbox@[j]
                        == before.outbox@[j]
                &&& forall|j: int|
                    0 <= j < before.outbox@.len() && (#[trigger] before.outbox@[j]).kind is Task
                        && before.outbox@[j].key@ == queue && (before.outbox@[j].status is Pending
                        || before.outbox@[j].status is Claimed) && before.outbox@[j].visible_at
                        <= before.now ==> {
                        &&& before.outbox@[j].priority <= row.priority
                        &&& before.outbox@[j].priority == row.priority ==> row.id
                            <= before.outbox@[j].id
                    }
            },
{
    let i = choose|i: int| #[trigger]
        first_claimable(before.outbox@, queue, before.now, i) && claim_fits(before, i, timeout)
            && after.outbox@ == before.outbox@.update(
            i,
            claimed_row(before.outbox@[i], later(before.now, timeout)->0),
        ) && task.shows(after.outbox@[i]);
    let row = before.outbox@[i];
    let claimed = after.outbox@[i];
    assert(claimed == claimed_row(row, later(before.now, timeout)->0));
    assert forall|j: int|
        0 <= j < before.outbox@.len() && (#[trigger] before.outbox@[j]).kind is Task
            && before.outbox@[j].key@ == queue && (before.outbox@[j].status is Pending
            || before.outbox@[j].status is Claimed) && before.outbox@[j].visible_at
            <= before.now implies before.outbox@[j].priority <= row.priority && (
    before.outbox@[j].priority == row.priority ==> row.id <= before.outbox@[j].id) by {
        assert(crate::task_queue::claimable(before.outbox@[j], queue, before.now));
    }
}

/// A task that failed before its attempts were used up can be claimed from its queue at every time
/// from the end of its delay on.
pub proof fn failed_task_can_be_claimed_again(
    before: Store,
    after: Store,
    id: i64,
    max_retries: i32,
    attempts: i32,
    i: int,
    store: Store,
    then: Store,
    r: Result<Option<Task>>,
    timeout: Span,
)
    requires
        attempts < max_retries,
        failed(before, after, Ok(()), id, max_retries, attempts),
        0 <= i < before.outbox@.len(),
        before.outbox@[i].id == id,
        before.outbox@[i].kind is Task,
        store.outbox@ == after.outbox@,
        store.now >= after.outbox@[i].visible_at,
        claim_made(store, then, r, before.outbox@[i].key@, timeout),
    ensures
        r != Result::<Option<Task>>::Ok(None),
{
    let draw = choose|draw: u64| #[trigger]
        failure_entered(before, after, Ok(()), id, failure_of(max_retries, attempts, draw));
    visible_task_can_be_claimed(store, then, r, before.outbox@[i].key@, timeout, i);
}

/// A failure of a task whose attempts are used up buries it. Before that the task is pending again
/// after a delay: a second, doubled with every attempt after the first, and a random share of less
/// than the same again, in whole seconds. Nothing else of the row changes, and neither does any other
/// row.
pub proof fn failure_decides_by_attempts(
    before: Store,
    after: Store,
    r: Result<()>,
    id: i64,
    max_retries: i32,
    attempts: i32,
    i: int,
)
    requires
        attempts_in_range(max_retries, attempts),
        failed(before, after, r, id, max_retries, attempts),
        r is Ok,
        0 <= i < before.outbox@.len(),
    ensures
        after.outbox@.len() == before.outbox@.len(),
        before.outbox@[i].id != id ==> after.outbox@[i] == before.outbox@[i],
        before.outbox@[i].id == id && attempts >= max_retries ==> {
            &&& after.outbox@[i].status is Dead
            &&& after.outbox@[i].delivered_at == Some(before.now)
            &&& after.outbox@[i] == (OutboxRow {
                status: after.outbox@[i].status,
                delivered_at: after.outbox@[i].delivered_at,
                ..before.outbox@[i]
            })
        },
        before.outbox@[i].id == id && attempts < max_retries ==> {
            let delay = after.outbox@[i].visible_at - before.now;
            let least = if attempts >= 1 {
                pow2((attempts - 1) as nat) as int
            } else {
                1
            };
            &&& after.outbox@[i].status is Pending
            &&& least * 1_000_000 <= delay < 2 * least * 1_000_000
            &&& delay % 1_000_000 == 0
            &&& after.outbox@[i] == (OutboxRow {
                status: after.outbox@[i].status,
                visible_at: after.outbox@[i].visible_at,
                ..before.outbox@[i]
            })
        },
{
    let draw = choose|draw: u64| #[trigger]
        failure_entered(before, after, r, id, failure_of(max_retries, attempts, draw));
    if attempts < max_retries {
        crate::retry::retry_delay_bounds(attempts, draw);
        vstd::arithmetic::power2::lemma2_to64();
        let secs = retry_delay(attempts, draw);
        if before.outbox@[i].id == id {
            assert(after.outbox@[i].visible_at - before.now == secs * 1_000_000);
            assert((secs * 1_000_000) % 1_000_000 == 0) by (nonlinear_arith);
        }
    }
}

/// The random share of a delay is the same fraction of the backoff as the word is of all words, to
/// the precision of 53 bits, rounded down to whole seconds.
pub proof fn delay_follows_the_random_word(attempts: i32, draw: u64)
    requires
        1 <= attempts <= 62,
    ensures
        ({
            let least = pow2((attempts - 1) as nat) as int;
            let share = retry_delay(attempts, draw) - least;
            share * 0x20_0000_0000_0000 <= (draw / 2048) * least < (share + 1)
                * 0x20_0000_0000_0000
        }),
        forall|more: u64| draw <= more ==> retry_delay(attempts, draw) <= #[trigger] retry_delay(
            attempts,
            more,
        ),
{
    let least = pow2((attempts - 1) as nat) as int;
    vstd::arithmetic::power2::lemma_pow2_pos((attempts - 1) as nat);
    let whole = (draw / 2048) * least;
    vstd::arithmetic::div_mod::lemma_fundamental_div_mod(whole, 0x20_0000_0000_0000);
    vstd::arithmetic::div_mod::lemma_mod_bound(whole, 0x20_0000_0000_0000);
    assert forall|more: u64| draw <= more implies retry_delay(attempts, draw)
        <= #[trigger] retry_delay(attempts, more) by {
        let other = (more / 2048) * least;
        assert(draw / 2048 <= more / 2048) by (nonlinear_arith)
            requires
                draw <= more,
        ;
        assert(whole <= other) by (nonlinear_arith)
            requires
                draw / 2048 <= more / 2048,
                least > 0,
                whole == (draw / 2048) * least,
                other == (more / 2048) * least,
        ;
        vstd::arithmetic::div_mod::lemma_div_is_ordered(whole, other, 0x20_0000_0000_0000);
    }
}

/// A failure comes back refused only where nothing has changed: the delay leaves the range of times,
/// or the row is neither pending nor claimed and another that is has its deduplication key. Without a
/// row of the identifier there is nothing to refuse.
pub proof fn refused_failure_changes_nothing(
    before: Store,
    after: Store,
    r: Result<()>,
    id: i64,
    max_retries: i32,
    attempts: i32,
)
    requires
        attempts_in_range(max_retries, attempts),
        failed(before, after, r, id, max_retries, attempts),
    ensures
        r is Err ==> after.outbox@ == before.outbox@,
        r is Err ==> attempts < max_retries && exists|i: int|
            0 <= i < before.outbox@.len() && (#[trigger] before.outbox@[i]).id == id,
        r matches Err(e) ==> e == StrunkError::Database(DbError::UniqueViolation) || e
            == StrunkError::Database(DbError::OutOfRange),
        r == Result::<()>::Err(StrunkError::Database(DbError::OutOfRange)) ==> before.now + 2
            * pow2(attempts as nat) * 1_000_000 > i64::MAX,
        r == Result::<()>::Err(StrunkError::Database(DbError::UniqueViolation)) ==> exists|
            i: int,
            j: int,
        |
            {
                &&& 0 <= i < before.outbox@.len()
                &&& 0 <= j < before.outbox@.len()
                &&& (#[trigger] before.outbox@[i]).id == id
                &&& !(before.outbox@[i].status is Pending) && !(before.outbox@[i].status is Claimed)
                &&& (#[trigger] before.outbox@[j]).status is Pending
                    || before.outbox@[j].status is Claimed
                &&& before.outbox@[i].dedup_key is Some
                &&& before.outbox@[j].dedup_key is Some
                &&& before.outbox@[i].dedup_key->0@ == before.outbox@[j].dedup_key->0@
            },
{
    let draw = choose|draw: u64| #[trigger]
        failure_entered(before, after, r, id, failure_of(max_retries, attempts, draw));
    let rows = before.outbox@;
    if r is Err {
        match crate::relay::failure_change(before.now, failure_of(max_retries, attempts, draw)) {
            None => {
                let k = choose|k: int| 0 <= k < rows.len() && (#[trigger] rows[k]).id == id;
                assert(rows[k].id == id);
                crate::retry::retry_delay_bounds(attempts, draw);
                if attempts >= 1 {
                    vstd::arithmetic::power2::lemma_pow2_strictly_increases(
                        (attempts - 1) as nat,
                        attempts as nat,
                    );
                }
            },
            Some(change) => {
                let i = choose|i: int|
                    0 <= i < rows.len() && (#[trigger] rows[i]).id == id && change.refused(
                        rows,
                        rows[i],
                    );
                let key = rows[i].dedup_key->0@;
                let j = choose|j: int|
                    0 <= j < rows.len() && crate::outbox::is_active(#[trigger] rows[j])
                        && crate::outbox::has_dedup(rows[j], key);
                assert(rows[i].id == id && crate::outbox::is_active(rows[j]));
            },
        }
    }
}

/// Completing a task marks its row as delivered now, and changes nothing else of it nor any other
/// row.
pub proof fn completion_marks_the_row(before: Store, after: Store, id: i64, i: int)
    requires
        completed(before, after, id),
        0 <= i < before.outbox@.len(),
    ensures
        after == (Store { outbox: after.outbox, ..before }),
        after.outbox@.len() == before.outbox@.len(),
        before.outbox@[i].id != id ==> after.outbox@[i] == before.outbox@[i],
        before.outbox@[i].id == id ==> {
            &&& after.outbox@[i].status is Delivered
            &&& after.outbox@[i].delivered_at == Some(before.now)
            &&& after.outbox@[i] == (OutboxRow {
                status: after.outbox@[i].status,
                delivered_at: after.outbox@[i].delivered_at,
                ..before.outbox@[i]
            })
        },
{
}

/// Completing a task with a result also marks its row as delivered now, and stores the result under
/// the task. Of a task that has a result the queue stays; the results of other tasks stay as they
/// are.
pub proof fn completion_stores_the_result(
    before: Store,
    after: Store,
    id: i64,
    queue: Seq<char>,
    result: Json,
    i: int,
    other: i64,
)
    requires
        completed_with(before, after, id, queue, result),
        0 <= i < before.outbox@.len(),
    ensures
        after.outbox@.len() == before.outbox@.len(),
        before.outbox@[i].id != id ==> after.outbox@[i] == before.outbox@[i],
        before.outbox@[i].id == id ==> after.outbox@[i].status is Delivered
            && after.outbox@[i].delivered_at == Some(before.now),
        after.results@.contains_key(id),
        after.results@[id].task_id == id,
        after.results@[id].result == result,
        after.results@[id].completed_at == before.now,
        after.results@[id].queue@ == (if before.results@.contains_key(id) {
            before.results@[id].queue@
        } else {
            queue
        }),
        other != id ==> after.results@.contains_key(other) == before.results@.contains_key(other),
        other != id && before.results@.contains_key(other) ==> after.results@[other]
            == before.results@[other],
{
}

/// A heartbeat moves the time at which a claimed task is seen again to so long from now. It touches
/// no task that is not claimed, and no other column. It is refused only where there is such a task
/// and the time leaves its range.
pub proof fn heartbeat_moves_the_time(
    before: Store,
    after: Store,
    r: Result<()>,
    id: i64,
    extend_by: Span,
    i: int,
)
    requires
        extended(before, after, r, id, extend_by),
        0 <= i < before.outbox@.len(),
    ensures
        after.outbox@.len() == before.outbox@.len(),
        r is Ok <==> before.now + extend_by.micros <= i64::MAX || forall|j: int|
            0 <= j < before.outbox@.len() && (#[trigger] before.outbox@[j]).id == id ==> !(
            before.outbox@[j].status is Claimed),
        r is Err ==> after.outbox@ == before.outbox@ && r->Err_0 == StrunkError::Database(
            DbError::OutOfRange,
        ),
        before.outbox@[i].id != id || !(before.outbox@[i].status is Claimed)
            ==> after.outbox@[i] == before.outbox@[i],
        r is Ok && before.outbox@[i].id == id && before.outbox@[i].status is Claimed ==> {
            &&& after.outbox@[i].visible_at == before.now + extend_by.micros
            &&& after.outbox@[i] == (OutboxRow {
                visible_at: after.outbox@[i].visible_at,
                ..before.outbox@[i]
            })
        },
{
    if later(before.now, extend_by) is None && crate::task_queue::is_claimed(before.outbox@, id) {
        let j = choose|j: int|
            0 <= j < before.outbox@.len() && (#[trigger] before.outbox@[j]).id == id
                && before.outbox@[j].status is Claimed;
        assert(before.outbox@[j].id == id && before.outbox@[j].status is Claimed);
    }
}

/// The progress of a claimed task is what was entered, or the end of the scale that it lies beyond.
/// Other tasks and other columns stay as they are.
pub proof fn progress_is_entered(before: Store, after: Store, id: i64, progress: i16, i: int)
    requires
        progressed(before, after, id, progress),
        0 <= i < before.outbox@.len(),
    ensures
        after.outbox@.len() == before.outbox@.len(),
        before.outbox@[i].id != id || !(before.outbox@[i].status is Claimed)
            ==> after.outbox@[i] == before.outbox@[i],
        before.outbox@[i].id == id && before.outbox@[i].status is Claimed ==> {
            &&& after.outbox@[i] == (OutboxRow {
                progress: after.outbox@[i].progress,
                ..before.outbox@[i]
            })
            &&& 0 <= progress <= 100 ==> after.outbox@[i].progress == progress
            &&& progress < 0 ==> after.outbox@[i].progress == 0
            &&& progress > 100 ==> after.outbox@[i].progress == 100
        },
{
}

/// Reviving brings a dead row back: it is pending from now on, without attempts. It touches no row
/// that is not dead, and no other column. It is refused, and changes nothing, exactly where the row
/// is dead and a row that is pending or claimed has its deduplication key.
pub proof fn revival_brings_back_dead_rows(
    before: Store,
    after: Store,
    r: Result<()>,
    id: i64,
    i: int,
)
    requires
        before.wf(),
        revived(before, after, r, id),
        0 <= i < before.outbox@.len(),
    ensures
        after.outbox@.len() == before.outbox@.len(),
        before.outbox@[i].id != id || !(before.outbox@[i].status is Dead) ==> after.outbox@[i]
            == before.outbox@[i],
        r is Ok && before.outbox@[i].id == id && before.outbox@[i].status is Dead ==> {
            &&& after.outbox@[i].status is Pending
            &&& after.outbox@[i].attempts == 0
            &&& after.outbox@[i].visible_at == before.now
            &&& after.outbox@[i] == (OutboxRow {
                status: after.outbox@[i].status,
                attempts: after.outbox@[i].attempts,
                visible_at: after.outbox@[i].visible_at,
                ..before.outbox@[i]
            })
        },
        r is Err ==> after.outbox@ == before.outbox@ && r->Err_0 == StrunkError::Database(
            DbError::UniqueViolation,
        ),
        before.outbox@[i].id == id && before.outbox@[i].status is Dead ==> (r is Err <==> exists|
            j: int,
        |
            {
                &&& 0 <= j < before.outbox@.len()
                &&& (#[trigger] before.outbox@[j]).status is Pending
                    || before.outbox@[j].status is Claimed
                &&& before.outbox@[i].dedup_key is Some
                &&& before.outbox@[j].dedup_key is Some
                &&& before.outbox@[i].dedup_key->0@ == before.outbox@[j].dedup_key->0@
            }),
        before.outbox@[i].id == id && !(before.outbox@[i].status is Dead) ==> r is Ok,
{
    let rows = before.outbox@;
    let change = crate::outbox::Change::Revive { visible_at: before.now };
    if crate::outbox::change_refused(rows, id, change) {
        let k = choose|k: int|
            0 <= k < rows.len() && (#[trigger] rows[k]).id == id && change.refused(rows, rows[k]);
        let key = rows[k].dedup_key->0@;
        let j = choose|j: int|
            0 <= j < rows.len() && crate::outbox::is_active(#[trigger] rows[j])
                && crate::outbox::has_dedup(rows[j], key);
        assert(crate::outbox::is_active(rows[j]));
        if rows[i].id == id {
            if i < k {
                assert(rows[i].id != rows[k].id);
            } else if k < i {
                assert(rows[k].id != rows[i].id);
            }
        }
    } else if rows[i].id == id && rows[i].status is Dead {
        assert(!change.refused(rows, rows[i]));
        assert forall|j: int|
            0 <= j < rows.len() && ((#[trigger] rows[j]).status is Pending
                || rows[j].status is Claimed) && rows[i].dedup_key is Some
                && rows[j].dedup_key is Some implies rows[i].dedup_key->0@
            != rows[j].dedup_key->0@ by {
            let key = rows[i].dedup_key->0@;
            if rows[j].dedup_key->0@ == key {
                assert(crate::outbox::is_active(rows[j]) && crate::outbox::has_dedup(
                    rows[j],
                    key,
                ));
                assert(crate::outbox::dedup_taken(rows, rows[i].dedup_key));
            }
        }
    }
}

/// A task that was submitted stands at the end of its transaction as it was given: pending, without
/// attempts, and to be seen when its delay is over.
pub proof fn submitted_task_stands_as_given(
    tx: Transaction,
    store: Store,
    tx_after: Transaction,
    store_after: Store,
    id: i64,
    task: TaskSubmit,
)
    requires
        inserted(tx, store, tx_after, store_after, Ok(id), task.new_row()),
    ensures
        tx_after.rows@.len() == tx.rows@.len() + 1,
        tx_after.rows@.drop_last() == tx.rows@,
        ({
            let row = tx_after.rows@.last();
            &&& row.id == id
            &&& row.kind is Task
            &&& row.key@ == task.queue@
            &&& row.dedup_key == task.dedup_key
            &&& row.payload == task.payload
            &&& row.metadata == task.metadata
            &&& row.status is Pending
            &&& row.attempts == 0
            &&& row.max_retries == task.max_retries
            &&& row.priority == task.priority
            &&& row.progress == 0
            &&& row.visible_at == tx.started_at + (match task.delay {
                Some(delay) => delay.micros as int,
                None => 0,
            })
            &&& row.created_at == tx.started_at
            &&& row.delivered_at is None
        }),
        tx_after.snapshots == tx.snapshots,
        !tx_after.aborted,
{
    assert(tx_after.rows@.drop_last() =~= tx.rows@);
}

/// A row is written unless the transaction has failed before, the identifiers are used up, the delay
/// leaves the range of times, or a row of the store or of the transaction that is pending or claimed
/// has the same deduplication key.
pub proof fn row_is_refused_only_for_cause(
    tx: Transaction,
    store: Store,
    tx_after: Transaction,
    store_after: Store,
    r: Result<i64>,
    new: NewRow,
)
    requires
        inserted(tx, store, tx_after, store_after, r, new),
    ensures
        r is Err <==> {
            ||| tx.aborted
            ||| store.next_id == i64::MAX
            ||| tx.started_at + new.delay.micros > i64::MAX
            ||| exists|i: int|
                {
                    &&& 0 <= i < store.outbox@.len()
                    &&& (#[trigger] store.outbox@[i]).status is Pending
                        || store.outbox@[i].status is Claimed
                    &&& new.dedup_key is Some
                    &&& store.outbox@[i].dedup_key is Some
                    &&& store.outbox@[i].dedup_key->0@ == new.dedup_key->0@
                }
            ||| exists|i: int|
                {
                    &&& 0 <= i < tx.rows@.len()
                    &&& (#[trigger] tx.rows@[i]).status is Pending || tx.rows@[i].status is Claimed
                    &&& new.dedup_key is Some
                    &&& tx.rows@[i].dedup_key is Some
                    &&& tx.rows@[i].dedup_key->0@ == new.dedup_key->0@
                }
        },
        r is Err ==> tx_after.rows@ == tx.rows@ && tx_after.aborted,
        r matches Ok(id) ==> id == store.next_id && store_after.next_id == id + 1,
        r matches Err(e) ==> {
            let out_of_range = store.next_id == i64::MAX || tx.started_at + new.delay.micros
                > i64::MAX;
            &&& tx.aborted ==> e == StrunkError::Database(DbError::TransactionAborted)
            &&& !tx.aborted && out_of_range ==> e == StrunkError::Database(DbError::OutOfRange)
            &&& !tx.aborted && !out_of_range ==> e == StrunkError::Database(
                DbError::UniqueViolation,
            )
        },
        store_after.outbox == store.outbox && tx_after.snapshots == tx.snapshots,
{
    lemma_taken(store.outbox@, new);
    lemma_taken(tx.rows@, new);
}

proof fn lemma_taken(rows: Seq<OutboxRow>, new: NewRow)
    ensures
        crate::outbox::dedup_taken(rows, new.dedup_key) <==> exists|i: int|
            {
                &&& 0 <= i < rows.len()
                &&& (#[trigger] rows[i]).status is Pending || rows[i].status is Claimed
                &&& new.dedup_key is Some
                &&& rows[i].dedup_key is Some
                &&& rows[i].dedup_key->0@ == new.dedup_key->0@
            },
{
    if crate::outbox::dedup_taken(rows, new.dedup_key) {
        let key = new.dedup_key->0@;
        let i = choose|i: int|
            0 <= i < rows.len() && crate::outbox::is_active(#[trigger] rows[i])
                && crate::outbox::has_dedup(rows[i], key);
        assert(crate::outbox::is_active(rows[i]));
    }
    if exists|i: int|
        {
            &&& 0 <= i < rows.len()
            &&& (#[trigger] rows[i]).status is Pending || rows[i].status is Claimed
            &&& new.dedup_key is Some
            &&& rows[i].dedup_key is Some
            &&& rows[i].dedup_key->0@ == new.dedup_key->0@
        } {
        let i = choose|i: int|
            {
                &&& 0 <= i < rows.len()
                &&& (#[trigger] rows[i]).status is Pending || rows[i].status is Claimed
                &&& new.dedup_key is Some
                &&& rows[i].dedup_key is Some
                &&& rows[i].dedup_key->0@ == new.dedup_key->0@
            };
        assert(crate::outbox::is_active(rows[i]) && crate::outbox::has_dedup(
            rows[i],
            new.dedup_key->0@,
        ));
    }
}

/// The items of a batch stand at the end of the transaction in their order, each as it was given,
/// under the identifiers that are handed out.
pub proof fn batch_stands_as_given(
    tx: Transaction,
    store: Store,
    tx_after: Transaction,
    store_after: Store,
    ids: Vec<i64>,
    items: Seq<BatchItem>,
    i: int,
)
    requires
        batch_inserted(tx, store, tx_after, store_after, Ok(ids), items),
        0 <= i < items.len(),
    ensures
        ids@.len() == items.len(),
        ids@[i] == store.next_id + i,
        tx_after.rows@.len() == tx.rows@.len() + items.len(),
        tx_after.rows@.take(tx.rows@.len() as int) == tx.rows@,
        ({
            let row = tx_after.rows@[tx.rows@.len() + i];
            &&& row.id == ids@[i]
            &&& row.kind is Task
            &&& row.key@ == items[i].queue@
            &&& row.dedup_key is None
            &&& row.payload == items[i].payload
            &&& row.metadata == items[i].metadata
            &&& row.status is Pending
            &&& row.attempts == 0
            &&& row.max_retries == items[i].max_retries
            &&& row.priority == items[i].priority
            &&& row.progress == 0
            &&& row.visible_at == tx.started_at + items[i].delay.micros
            &&& row.created_at == tx.started_at
            &&& row.delivered_at is None
        }),
{
    assert(tx_after.rows@.take(tx.rows@.len() as int) =~= tx.rows@);
    assert(later(tx.started_at, items[i].delay) is Some);
}

/// A batch is written unless the transaction has failed before, the identifiers do not suffice, or a
/// delay leaves the range of times; an empty one always is. What is refused leaves no row.
pub proof fn batch_is_refused_only_for_cause(
    tx: Transaction,
    store: Store,
    tx_after: Transaction,
    store_after: Store,
    r: Result<Vec<i64>>,
    items: Seq<BatchItem>,
)
    requires
        batch_inserted(tx, store, tx_after, store_after, r, items),
    ensures
        r is Err <==> items.len() > 0 && {
            ||| tx.aborted
            ||| store.next_id + items.len() > i64::MAX
            ||| exists|i: int|
                0 <= i < items.len() && tx.started_at + (#[trigger] items[i]).delay.micros
                    > i64::MAX
        },
        r is Err ==> tx_after.rows@ == tx.rows@ && tx_after.aborted,
        r matches Err(e) ==> e == StrunkError::Database(
            if tx.aborted {
                DbError::TransactionAborted
            } else {
                DbError::OutOfRange
            },
        ),
        items.len() == 0 ==> r is Ok && r->Ok_0@.len() == 0 && tx_after.rows@ == tx.rows@
            && tx_after.aborted == tx.aborted,
        store_after.outbox == store.outbox && tx_after.snapshots == tx.snapshots,
{
    if items.len() == 0 {
        assert(tx_after.rows@ =~= tx.rows@);
    }
}

/// A commit shows all rows of the transaction behind those that are there, or none of them. It shows
/// them unless a write had failed, or a row that is pending or claimed has taken a deduplication key
/// since.
pub proof fn commit_shows_all_or_nothing(
    tx: Transaction,
    before: Store,
    after: Store,
    r: Result<()>,
)
    requires
        committed(tx, before, after, r),
    ensures
        ({
            let taken = exists|i: int, j: int|
                {
                    &&& 0 <= i < before.outbox@.len()
                    &&& 0 <= j < tx.rows@.len()
                    &&& (#[trigger] before.outbox@[i]).status is Pending
                        || before.outbox@[i].status is Claimed
                    &&& before.outbox@[i].dedup_key is Some
                    &&& (#[trigger] tx.rows@[j]).dedup_key is Some
                    &&& before.outbox@[i].dedup_key->0@ == tx.rows@[j].dedup_key->0@
                };
            &&& r is Err <==> !tx.aborted && taken
            &&& (r matches Err(e) ==> e == StrunkError::Database(DbError::UniqueViolation))
            &&& tx.aborted || taken ==> after.outbox == before.outbox && after.snapshots
                == before.snapshots
            &&& !tx.aborted && !taken ==> after.outbox@ == before.outbox@ + tx.rows@
        }),
        forall|id: i64| #[trigger]
            after.held@.contains(id) ==> before.held@.contains(id) && forall|j: int|
                0 <= j < tx.rows@.len() ==> (#[trigger] tx.rows@[j]).id != id,
{
    let rows = before.outbox@;
    if crate::store::commit_refused(tx, before) {
        let j = choose|j: int|
            0 <= j < tx.rows@.len() && crate::outbox::dedup_taken(
                rows,
                (#[trigger] tx.rows@[j]).dedup_key,
            );
        let key = tx.rows@[j].dedup_key->0@;
        let i = choose|i: int|
            0 <= i < rows.len() && crate::outbox::is_active(#[trigger] rows[i])
                && crate::outbox::has_dedup(rows[i], key);
        assert(crate::outbox::is_active(rows[i]));
        assert(tx.rows@[j].dedup_key is Some);
    }
    if exists|i: int, j: int|
        {
            &&& 0 <= i < rows.len()
            &&& 0 <= j < tx.rows@.len()
            &&& (#[trigger] rows[i]).status is Pending || rows[i].status is Claimed
            &&& rows[i].dedup_key is Some
            &&& (#[trigger] tx.rows@[j]).dedup_key is Some
            &&& rows[i].dedup_key->0@ == tx.rows@[j].dedup_key->0@
        } {
        let (i, j) = choose|i: int, j: int|
            {
                &&& 0 <= i < rows.len()
                &&& 0 <= j < tx.rows@.len()
                &&& (#[trigger] rows[i]).status is Pending || rows[i].status is Claimed
                &&& rows[i].dedup_key is Some
                &&& (#[trigger] tx.rows@[j]).dedup_key is Some
                &&& rows[i].dedup_key->0@ == tx.rows@[j].dedup_key->0@
            };
        assert(crate::outbox::is_active(rows[i]) && crate::outbox::has_dedup(
            rows[i],
            tx.rows@[j].dedup_key->0@,
        ));
        assert(crate::outbox::dedup_taken(rows, tx.rows@[j].dedup_key));
        assert(crate::store::commit_refused(tx, before));
    }
    assert forall|id: i64| #[trigger] after.held@.contains(id) implies before.held@.contains(id)
        && forall|j: int| 0 <= j < tx.rows@.len() ==> (#[trigger] tx.rows@[j]).id != id by {
        assert(crate::store::held_ids(after).contains(id));
        assert(!crate::store::ids_of(tx.rows@).contains(id));
    }
}

/// A message that a consumer has processed is remembered from then on, under the time of the first
/// entry. What was remembered of other consumers and messages stays as it is.
pub proof fn inbox_remembers_messages(
    before: Store,
    after: Store,
    consumer_id: Seq<char>,
    message_id: i64,
    other: (Seq<char>, i64),
)
    requires
        inbox_marked(before, after, consumer_id, message_id),
    ensures
        after.inbox@.contains_key((consumer_id, message_id)),
        before.inbox@.contains_key((consumer_id, message_id)) ==> after.inbox@[(
            consumer_id,
            message_id,
        )] == before.inbox@[(consumer_id, message_id)],
        !before.inbox@.contains_key((consumer_id, message_id)) ==> after.inbox@[(
            consumer_id,
            message_id,
        )] == before.now,
        other != (consumer_id, message_id) ==> after.inbox@.contains_key(other)
            == before.inbox@.contains_key(other),
        other != (consumer_id, message_id) && before.inbox@.contains_key(other)
            ==> after.inbox@[other] == before.inbox@[other],
        after.outbox == before.outbox,
{
}

/// A result that was stored is handed out as it was stored, and nothing is handed out for a task
/// without one.
pub proof fn stored_result_is_handed_out(
    before: Store,
    after: Store,
    r: Result<Option<TaskResult>>,
    id: i64,
    queue: Seq<char>,
    result: Json,
    asked: i64,
)
    requires
        completed_with(before, after, id, queue, result),
        result_found(after, r, asked),
    ensures
        r is Ok,
        asked == id ==> r->Ok_0 is Some && r->Ok_0->0.task_id == id && r->Ok_0->0.result@ == result@
            && r->Ok_0->0.completed_at == before.now,
        asked != id ==> (r->Ok_0 is Some <==> before.results@.contains_key(asked)),
        asked != id && before.results@.contains_key(asked) ==> {
            let stored = before.results@[asked];
            let shown = r->Ok_0->0;
            &&& shown.task_id == stored.task_id
            &&& shown.queue@ == stored.queue@
            &&& shown.result@ == stored.result@
            &&& shown.completed_at == stored.completed_at
        },
{
}

/// Progress that was entered of a claimed task is handed out. That of any other row is the one that
/// stood there before, and nothing is handed out where there is no row.
pub proof fn entered_progress_is_handed_out(
    before: Store,
    after: Store,
    r: Result<Option<i16>>,
    id: i64,
    progress: i16,
    i: int,
)
    requires
        before.wf(),
        progressed(before, after, id, progress),
        progress_found(after, r, id),
    ensures
        r is Ok,
        0 <= i < before.outbox@.len() && before.outbox@[i].id == id ==> r->Ok_0 is Some && {
            let shown = r->Ok_0->0;
            if !(before.outbox@[i].status is Claimed) {
                shown == before.outbox@[i].progress
            } else if progress < 0 {
                shown == 0
            } else if progress > 100 {
                shown == 100
            } else {
                shown == progress
            }
        },
        (forall|k: int|
            0 <= k < before.outbox@.len() ==> (#[trigger] before.outbox@[k]).id != id)
            ==> r->Ok_0 is None,
{
    let rows = after.outbox@;
    if 0 <= i < before.outbox@.len() && before.outbox@[i].id == id {
        progress_is_entered(before, after, id, progress, i);
        assert(rows[i].id == id);
    }
    if let Ok(Some(shown)) = r {
        let k = choose|k: int|
            0 <= k < rows.len() && (#[trigger] rows[k]).id == id && rows[k].progress == shown;
        progress_is_entered(before, after, id, progress, k);
        assert(before.outbox@[k].id == id);
        if 0 <= i < before.outbox@.len() && before.outbox@[i].id == id {
            if i < k {
                assert(before.outbox@[i].id != before.outbox@[k].id);
            } else if k < i {
                assert(before.outbox@[k].id != before.outbox@[i].id);
            }
        }
    }
}

/// The columns of a batch hold its items in their order, each column what it is for.
pub proof fn columns_hold_the_items(columns: BatchColumns, items: Seq<BatchItem>, i: int)
    requires
        transposes(columns, items),
    ensures
        columns.keys@.len() == items.len(),
        columns.payloads@.len() == items.len(),
        columns.metadatas@.len() == items.len(),
        columns.priorities@.len() == items.len(),
        columns.retries@.len() == items.len(),
        columns.delays@.len() == items.len(),
        0 <= i < items.len() ==> {
            &&& columns.keys@[i] == items[i].queue
            &&& columns.payloads@[i] == items[i].payload
            &&& columns.metadatas@[i] == items[i].metadata
            &&& columns.priorities@[i] == items[i].priority
            &&& columns.retries@[i] == items[i].max_retries
            &&& columns.delays@[i] == items[i].delay
        },
{
}

/// That a task failed can always be entered as long as its row is pending or claimed and it has been
/// tried fewer than forty times.
pub proof fn active_task_can_fail(
    before: Store,
    after: Store,
    r: Result<()>,
    id: i64,
    max_retries: i32,
    attempts: i32,
    i: int,
)
    requires
        before.wf(),
        failed(before, after, r, id, max_retries, attempts),
        0 <= i < before.outbox@.len(),
        before.outbox@[i].id == id,
        before.outbox@[i].status is Pending || before.outbox@[i].status is Claimed,
        0 <= attempts < 40,
    ensures
        r is Ok,
{
    let draw = choose|draw: u64| #[trigger]
        failure_entered(before, after, r, id, failure_of(max_retries, attempts, draw));
    crate::retry::retry_delay_bounds(attempts, draw);
    vstd::arithmetic::power2::lemma2_to64_rest();
    let doublings = crate::retry::doublings(attempts);
    if doublings < 38 {
        vstd::arithmetic::power2::lemma_pow2_strictly_increases(doublings, 38);
    }
    let rows = before.outbox@;
    if let Some(change) = crate::relay::failure_change(
        before.now,
        failure_of(max_retries, attempts, draw),
    ) {
        assert forall|k: int| 0 <= k < rows.len() && (#[trigger] rows[k]).id == id implies k
            == i by {
            if k < i {
                assert(rows[k].id != rows[i].id);
            } else if i < k {
                assert(rows[i].id != rows[k].id);
            }
        }
    }
}

/// A change to the rows of the outbox leaves all other tables, the identifiers and the time alone.
pub proof fn row_changes_leave_the_rest_alone(before: Store, after: Store)
    requires
        after == with_outbox(before, after),
    ensures
        after.now == before.now,
        after.next_id == before.next_id,
        after.held == before.held,
        after.subscribers == before.subscribers,
        after.snapshots == before.snapshots,
        after.results == before.results,
        after.schedules == before.schedules,
        after.inbox == before.inbox,
        after.schemas == before.schemas,
{
}

/// A transaction that is rolled back leaves no trace but the identifiers that it used up.
pub proof fn rollback_leaves_no_trace(tx: Transaction, before: Store, after: Store, id: i64)
    requires
        rolled_back(tx, before, after),
    ensures
        after.outbox == before.outbox,
        after.snapshots == before.snapshots,
        after.next_id == before.next_id,
        after.held@.contains(id) <==> before.held@.contains(id) && forall|j: int|
            0 <= j < tx.rows@.len() ==> (#[trigger] tx.rows@[j]).id != id,
{
    assert(held_ids(after).contains(id) <==> after.held@.contains(id));
    assert(held_ids(before).contains(id) <==> before.held@.contains(id));
    assert(ids_of(tx.rows@).contains(id) <==> exists|j: int|
        0 <= j < tx.rows@.len() && (#[trigger] tx.rows@[j]).id == id);
}

} // verus!
