//! The task queue: submitting tasks, and claiming, completing and failing them.
use vstd::prelude::*;

use crate::error::{DbError, Result, StrunkError};
use crate::json::{Json, JsonView};
use crate::outbox::{changed, distinct_ids, find_id, is_active, same_dedup, Change, Query};
use crate::ranking::rank_le;
use crate::relay::{completed, failed, mark_delivered, mark_failed, row_changed, with_outbox};
use crate::retry::attempts_in_range;
use crate::store::{insert_error, inserted, NewRow, Store, Transaction};
use crate::time::{add_span, later, Span, Timestamp};
use crate::types::{MessageKind, MessageStatus, OutboxRow, Task, TaskResult};

pub use crate::worker::Worker;

verus! {

/// A task that is to be submitted.
#[derive(Debug)]
pub struct TaskSubmit {
    pub queue: String,
    pub payload: Json,
    pub metadata: Json,
    pub priority: i32,
    pub max_retries: i32,
    pub delay: Option<Span>,
    pub dedup_key: Option<String>,
}

impl TaskSubmit {
    /// The row that the task becomes.
    pub open spec fn new_row(self) -> NewRow {
        NewRow {
            kind: MessageKind::Task,
            key: self.queue,
            dedup_key: self.dedup_key,
            payload: self.payload,
            metadata: self.metadata,
            priority: self.priority,
            max_retries: self.max_retries,
            delay: match self.delay {
                Some(delay) => delay,
                None => Span { micros: 0 },
            },
        }
    }

    pub fn new(queue: &str) -> (r: TaskSubmit)
        ensures
            r.queue@ == queue@,
            r.payload@ is Null,
            r.metadata@ == JsonView::Object(Seq::empty()),
            r.priority == 0,
            r.max_retries == 3,
            r.delay is None,
            r.dedup_key is None,
    {
        TaskSubmit {
            queue: queue.to_owned(),
            payload: Json::Null,
            metadata: Json::empty_object(),
            priority: 0,
            max_retries: 3,
            delay: None,
            dedup_key: None,
        }
    }

    pub fn payload(self, payload: Json) -> (r: TaskSubmit)
        ensures
            r == (TaskSubmit { payload, ..self }),
    {
        TaskSubmit { payload, ..self }
    }

    pub fn metadata(self, metadata: Json) -> (r: TaskSubmit)
        ensures
            r == (TaskSubmit { metadata, ..self }),
    {
        TaskSubmit { metadata, ..self }
    }

    pub fn priority(self, priority: i32) -> (r: TaskSubmit)
        ensures
            r == (TaskSubmit { priority, ..self }),
    {
        TaskSubmit { priority, ..self }
    }

    pub fn max_retries(self, max_retries: i32) -> (r: TaskSubmit)
        ensures
            r == (TaskSubmit { max_retries, ..self }),
    {
        TaskSubmit { max_retries, ..self }
    }

    pub fn delay(self, delay: Span) -> (r: TaskSubmit)
        ensures
            r == (TaskSubmit { delay: Some(delay), ..self }),
    {
        TaskSubmit { delay: Some(delay), ..self }
    }

    pub fn dedup_key(self, key: &str) -> (r: TaskSubmit)
        ensures
            r.dedup_key is Some,
            r.dedup_key->0@ == key@,
            r == (TaskSubmit { dedup_key: r.dedup_key, ..self }),
    {
        TaskSubmit { dedup_key: Some(key.to_owned()), ..self }
    }

    /// Takes an encoded value as the payload.
    pub fn typed(self, encoded: Json) -> (r: TaskSubmit)
        ensures
            r == (TaskSubmit { payload: encoded, ..self }),
    {
        TaskSubmit { payload: encoded, ..self }
    }

    /// Writes the task to a transaction.
    pub fn submit(self, tx: &mut Transaction, store: &mut Store) -> (r: Result<i64>)
        requires
            old(store).wf(),
            old(tx).fits(*old(store)),
        ensures
            final(store).wf(),
            final(tx).fits(*final(store)),
            inserted(*old(tx), *old(store), *final(tx), *final(store), r, self.new_row()),
    {
        let delay: Span = match self.delay {
            Some(delay) => delay,
            None => Span { micros: 0 },
        };
        tx.insert(
            store,
            NewRow {
                kind: MessageKind::Task,
                key: self.queue,
                dedup_key: self.dedup_key,
                payload: self.payload,
                metadata: self.metadata,
                priority: self.priority,
                max_retries: self.max_retries,
                delay,
            },
        )
    }
}

/// A task of a batch.
#[derive(Debug)]
pub struct BatchItem {
    pub queue: String,
    pub payload: Json,
    pub metadata: Json,
    pub priority: i32,
    pub max_retries: i32,
    pub delay: Span,
}

impl BatchItem {
    /// The row that the item becomes.
    pub open spec fn new_row(self) -> NewRow {
        NewRow {
            kind: MessageKind::Task,
            key: self.queue,
            dedup_key: None,
            payload: self.payload,
            metadata: self.metadata,
            priority: self.priority,
            max_retries: self.max_retries,
            delay: self.delay,
        }
    }

    pub fn new(queue: &str, payload: Json) -> (r: BatchItem)
        ensures
            r.queue@ == queue@,
            r.payload == payload,
            r.metadata@ == JsonView::Object(Seq::empty()),
            r.priority == 0,
            r.max_retries == 3,
            r.delay.micros == 0,
    {
        BatchItem {
            queue: queue.to_owned(),
            payload,
            metadata: Json::empty_object(),
            priority: 0,
            max_retries: 3,
            delay: Span { micros: 0 },
        }
    }

    pub fn priority(self, priority: i32) -> (r: BatchItem)
        ensures
            r == (BatchItem { priority, ..self }),
    {
        BatchItem { priority, ..self }
    }

    pub fn max_retries(self, max_retries: i32) -> (r: BatchItem)
        ensures
            r == (BatchItem { max_retries, ..self }),
    {
        BatchItem { max_retries, ..self }
    }

    pub fn delay(self, delay: Span) -> (r: BatchItem)
        ensures
            r == (BatchItem { delay, ..self }),
    {
        BatchItem { delay, ..self }
    }
}

/// A batch, column by column.
#[derive(Debug)]
pub struct BatchColumns {
    pub keys: Vec<String>,
    pub payloads: Vec<Json>,
    pub metadatas: Vec<Json>,
    pub priorities: Vec<i32>,
    pub retries: Vec<i32>,
    pub delays: Vec<Span>,
}

/// Whether the columns hold the items.
pub open spec fn transposes(columns: BatchColumns, items: Seq<BatchItem>) -> bool {
    &&& columns.keys@ == items.map_values(|item: BatchItem| item.queue)
    &&& columns.payloads@ == items.map_values(|item: BatchItem| item.payload)
    &&& columns.metadatas@ == items.map_values(|item: BatchItem| item.metadata)
    &&& columns.priorities@ == items.map_values(|item: BatchItem| item.priority)
    &&& columns.retries@ == items.map_values(|item: BatchItem| item.max_retries)
    &&& columns.delays@ == items.map_values(|item: BatchItem| item.delay)
}

/// Puts a batch into columns.
pub fn batch_columns(items: Vec<BatchItem>) -> (r: BatchColumns)
    ensures
        transposes(r, items@),
{
    let ghost all = items@;
    let mut keys: Vec<String> = Vec::new();
    let mut payloads: Vec<Json> = Vec::new();
    let mut metadatas: Vec<Json> = Vec::new();
    let mut priorities: Vec<i32> = Vec::new();
    let mut retries: Vec<i32> = Vec::new();
    let mut delays: Vec<Span> = Vec::new();
    for item in it: items
        invariant
            it.seq() == all,
            keys@ == all.take(it.index()).map_values(|item: BatchItem| item.queue),
            payloads@ == all.take(it.index()).map_values(|item: BatchItem| item.payload),
            metadatas@ == all.take(it.index()).map_values(|item: BatchItem| item.metadata),
            priorities@ == all.take(it.index()).map_values(|item: BatchItem| item.priority),
            retries@ == all.take(it.index()).map_values(|item: BatchItem| item.max_retries),
            delays@ == all.take(it.index()).map_values(|item: BatchItem| item.delay),
    {
        let ghost k = it.index();
        assert(all.take(k + 1) =~= all.take(k).push(all[k]));
        keys.push(item.queue);
        payloads.push(item.payload);
        metadatas.push(item.metadata);
        priorities.push(item.priority);
        retries.push(item.max_retries);
        delays.push(item.delay);
    }
    assert(all.take(all.len() as int) =~= all);
    BatchColumns { keys, payloads, metadatas, priorities, retries, delays }
}

/// Why a batch cannot be written, if it cannot. An empty batch always can.
pub open spec fn batch_error(
    tx: Transaction,
    store: Store,
    items: Seq<BatchItem>,
) -> Option<DbError> {
    if items.len() == 0 {
        None
    } else if tx.aborted {
        Some(DbError::TransactionAborted)
    } else if store.next_id + items.len() > i64::MAX || exists|i: int|
        0 <= i < items.len() && later(tx.started_at, (#[trigger] items[i]).delay) is None {
        Some(DbError::OutOfRange)
    } else {
        None
    }
}

/// The rows of a batch, under consecutive identifiers.
pub open spec fn batch_rows(tx: Transaction, first: i64, items: Seq<BatchItem>) -> Seq<OutboxRow> {
    Seq::new(
        items.len(),
        |i: int|
            items[i].new_row().row(
                (first + i) as i64,
                tx.started_at,
                later(tx.started_at, items[i].delay)->0,
            ),
    )
}

/// Whether a batch was written to a transaction, all of it or nothing.
pub open spec fn batch_inserted(
    tx: Transaction,
    store: Store,
    tx_after: Transaction,
    store_after: Store,
    r: Result<Vec<i64>>,
    items: Seq<BatchItem>,
) -> bool {
    &&& store_after == (Store { next_id: store_after.next_id, ..store })
    &&& tx_after == (Transaction { rows: tx_after.rows, aborted: tx_after.aborted, ..tx })
    &&& match batch_error(tx, store, items) {
        Some(e) => {
            &&& r == Result::<Vec<i64>>::Err(StrunkError::Database(e))
            &&& store_after.next_id == store.next_id
            &&& tx_after.rows@ == tx.rows@
            &&& tx_after.aborted
        },
        None => {
            &&& r is Ok
            &&& r->Ok_0@ == Seq::new(items.len(), |i: int| (store.next_id + i) as i64)
            &&& store_after.next_id == store.next_id + items.len()
            &&& tx_after.aborted == tx.aborted
            &&& tx_after.rows@ == tx.rows@ + batch_rows(tx, store.next_id, items)
        },
    }
}

/// Writes a batch of tasks to a transaction, all of them or none.
pub fn submit_batch(tx: &mut Transaction, store: &mut Store, items: Vec<BatchItem>) -> (r: Result<
    Vec<i64>,
>)
    requires
        old(store).wf(),
        old(tx).fits(*old(store)),
    ensures
        final(store).wf(),
        final(tx).fits(*final(store)),
        batch_inserted(*old(tx), *old(store), *final(tx), *final(store), r, items@),
{
    let n: usize = items.len();
    if n == 0 {
        assert(tx.rows@ + batch_rows(*tx, store.next_id, items@) =~= tx.rows@);
        let none: Vec<i64> = Vec::new();
        assert(none@ =~= Seq::new(items@.len(), |i: int| (store.next_id + i) as i64));
        return Ok(none);
    }
    if tx.aborted {
        return Err(StrunkError::Database(DbError::TransactionAborted));
    }
    if store.next_id as i128 + n as i128 > i64::MAX as i128 {
        tx.aborted = true;
        return Err(StrunkError::Database(DbError::OutOfRange));
    }
    let mut i: usize = 0;
    while i < n
        invariant
            n == items.len(),
            i <= n,
            *tx == *old(tx),
            *store == *old(store),
            store.wf(),
            tx.fits(*store),
            !tx.aborted,
            forall|j: int|
                0 <= j < i ==> later(tx.started_at, (#[trigger] items@[j]).delay) is Some,
        decreases n - i,
    {
        if add_span(tx.started_at, items[i].delay).is_none() {
            assert(later(tx.started_at, items@[i as int].delay) is None);
            tx.aborted = true;
            return Err(StrunkError::Database(DbError::OutOfRange));
        }
        i = i + 1;
    }
    let ghost all = items@;
    let mut ids: Vec<i64> = Vec::new();
    for item in it: items
        invariant
            it.seq() == all,
            n == all.len(),
            store.wf(),
            tx.fits(*store),
            !old(tx).aborted,
            !tx.aborted,
            old(store).next_id + n <= i64::MAX,
            forall|j: int|
                0 <= j < n ==> later(old(tx).started_at, (#[trigger] all[j]).delay) is Some,
            *store == (Store { next_id: store.next_id, ..*old(store) }),
            store.next_id == old(store).next_id + it.index(),
            *tx == (Transaction { rows: tx.rows, ..*old(tx) }),
            tx.rows@ == old(tx).rows@ + batch_rows(
                *old(tx),
                old(store).next_id,
                all.take(it.index()),
            ),
            ids@ == Seq::new(it.index() as nat, |i: int| (old(store).next_id + i) as i64),
    {
        let ghost k = it.index();
        proof {
            assert(item == all[k]);
            assert(insert_error(*tx, *store, item.new_row()) is None);
            assert(all.take(k + 1) =~= all.take(k).push(all[k]));
        }
        let row: NewRow = NewRow {
            kind: MessageKind::Task,
            key: item.queue,
            dedup_key: None,
            payload: item.payload,
            metadata: item.metadata,
            priority: item.priority,
            max_retries: item.max_retries,
            delay: item.delay,
        };
        let ghost before = tx.rows@;
        let written: Result<i64> = tx.insert(store, row);
        match written {
            Ok(id) => ids.push(id),
            Err(e) => {},
        }
        assert(tx.rows@ =~= old(tx).rows@ + batch_rows(
            *old(tx),
            old(store).next_id,
            all.take(k + 1),
        ));
    }
    assert(all.take(n as int) =~= all);
    Ok(ids)
}

/// Whether a task of a queue can be claimed.
pub open spec fn claimable(row: OutboxRow, queue: Seq<char>, now: Timestamp) -> bool {
    &&& row.kind is Task
    &&& row.key@ == queue
    &&& is_active(row)
    &&& row.visible_at <= now
}

/// Whether one task is claimed before another: that of higher priority, and of two of the same
/// priority the older one.
pub open spec fn precedes(a: OutboxRow, b: OutboxRow) -> bool {
    a.priority > b.priority || (a.priority == b.priority && a.id <= b.id)
}

/// Whether the row at `i` is the first that can be claimed.
pub open spec fn first_claimable(
    rows: Seq<OutboxRow>,
    queue: Seq<char>,
    now: Timestamp,
    i: int,
) -> bool {
    &&& 0 <= i < rows.len()
    &&& claimable(rows[i], queue, now)
    &&& forall|j: int|
        0 <= j < rows.len() && claimable(#[trigger] rows[j], queue, now) ==> precedes(
            rows[i],
            rows[j],
        )
}

/// Whether no task of a queue can be claimed.
pub open spec fn none_claimable(rows: Seq<OutboxRow>, queue: Seq<char>, now: Timestamp) -> bool {
    forall|j: int| 0 <= j < rows.len() ==> !claimable(#[trigger] rows[j], queue, now)
}

/// A row that has been claimed and stays out of sight until then.
pub open spec fn claimed_row(row: OutboxRow, visible_at: Timestamp) -> OutboxRow {
    OutboxRow {
        status: MessageStatus::Claimed,
        visible_at,
        attempts: (row.attempts + 1) as i32,
        ..row
    }
}

/// Whether the row at `i` can be claimed for that long.
pub open spec fn claim_fits(store: Store, i: int, timeout: Span) -> bool {
    later(store.now, timeout) is Some && store.outbox@[i].attempts < i32::MAX
}

/// Whether the first task that can be claimed was claimed, if there is one.
pub open spec fn claim_made(
    before: Store,
    after: Store,
    r: Result<Option<Task>>,
    queue: Seq<char>,
    timeout: Span,
) -> bool {
    &&& after == with_outbox(before, after)
    &&& match r {
        Ok(None) => none_claimable(before.outbox@, queue, before.now) && after.outbox@
            == before.outbox@,
        Ok(Some(task)) => exists|i: int| #[trigger]
            first_claimable(before.outbox@, queue, before.now, i) && claim_fits(before, i, timeout)
                && after.outbox@ == before.outbox@.update(
                i,
                claimed_row(before.outbox@[i], later(before.now, timeout)->0),
            ) && task.shows(after.outbox@[i]),
        Err(e) => e == StrunkError::Database(DbError::OutOfRange) && after.outbox@
            == before.outbox@ && exists|i: int| #[trigger]
            first_claimable(before.outbox@, queue, before.now, i) && !claim_fits(before, i, timeout),
    }
}

/// Claims the first task of a queue that can be claimed.
pub fn claim(store: &mut Store, queue: &str, visibility_timeout: Span) -> (r: Result<Option<Task>>)
    requires
        old(store).wf(),
    ensures
        final(store).wf(),
        claim_made(*old(store), *final(store), r, queue@, visibility_timeout),
{
    let now: Timestamp = store.now;
    let ghost before = store.outbox@;
    let query: Query = Query::Claimable { queue: queue.to_owned(), now };
    let places: Vec<usize> = query.select(&store.outbox, 1);
    proof {
        assert forall|j: int| 0 <= j < before.len() implies (claimable(
            #[trigger] before[j],
            queue@,
            now,
        ) <==> query.ranks(before)[j] is Some) by {}
    }
    if places.len() == 0 {
        assert forall|j: int| 0 <= j < before.len() implies !claimable(
            #[trigger] before[j],
            queue@,
            now,
        ) by {
            assert(query.ranks(before)[j] is Some ==> places@.contains(j as usize));
        }
        return Ok(None);
    }
    let i: usize = places[0];
    proof {
        assert(places@[0] == i);
        assert(query.ranks(before)[i as int] is Some);
        assert forall|j: int| 0 <= j < before.len() && claimable(
            #[trigger] before[j],
            queue@,
            now,
        ) implies precedes(before[i as int], before[j]) by {
            assert(query.ranks(before)[j] is Some);
            assert(j < store.outbox.len());
            if places@.contains(j as usize) {
                let k = places@.index_of(j as usize);
                assert(k == 0 && j == i);
            } else {
                assert(rank_le(
                    query.ranks(before)[places@[0] as int]->0,
                    query.ranks(before)[j]->0,
                ));
            }
        }
        assert(first_claimable(before, queue@, now, i as int));
    }
    let visible_at: Timestamp = match add_span(now, visibility_timeout) {
        Some(at) => at,
        None => return Err(StrunkError::Database(DbError::OutOfRange)),
    };
    if store.outbox[i].attempts == i32::MAX {
        return Err(StrunkError::Database(DbError::OutOfRange));
    }
    let attempts: i32 = store.outbox[i].attempts;
    store.outbox[i].status = MessageStatus::Claimed;
    store.outbox[i].visible_at = visible_at;
    store.outbox[i].attempts = attempts + 1;
    let row: OutboxRow = store.outbox[i].clone();
    proof {
        let after = store.outbox@;
        assert(after =~= before.update(i as int, claimed_row(before[i as int], visible_at)));
        assert forall|a: int, b: int| 0 <= a < b < after.len() implies (#[trigger] after[a]).id != (
        #[trigger] after[b]).id by {
            assert(before[a].id != before[b].id);
        }
        assert forall|a: int, b: int|
            #![trigger after[a], after[b]]
            0 <= a < b < after.len() && is_active(after[a]) && is_active(
                after[b],
            ) implies !same_dedup(after[a], after[b]) by {
            assert(!same_dedup(before[a], before[b]));
        }
    }
    Ok(Some(Task::from(row)))
}

/// Marks a task as done.
pub fn complete(store: &mut Store, task_id: i64) -> (r: Result<()>)
    requires
        old(store).wf(),
    ensures
        final(store).wf(),
        r is Ok,
        completed(*old(store), *final(store), task_id),
{
    mark_delivered(store, task_id)
}

/// The results after one more has been stored. A result that is there keeps its queue.
pub open spec fn with_result(
    results: Map<i64, TaskResult>,
    task_id: i64,
    queue: Seq<char>,
    result: Json,
    now: Timestamp,
    after: Map<i64, TaskResult>,
) -> bool {
    &&& after.contains_key(task_id)
    &&& after == results.insert(task_id, after[task_id])
    &&& after[task_id].task_id == task_id
    &&& after[task_id].queue@ == (if results.contains_key(task_id) {
        results[task_id].queue@
    } else {
        queue
    })
    &&& after[task_id].result == result
    &&& after[task_id].completed_at == now
}

/// Whether a task was marked as done and its result stored.
pub open spec fn completed_with(
    before: Store,
    after: Store,
    task_id: i64,
    queue: Seq<char>,
    result: Json,
) -> bool {
    &&& after == (Store { outbox: after.outbox, results: after.results, ..before })
    &&& after.outbox@ == changed(before.outbox@, task_id, Change::Deliver { at: before.now })
    &&& with_result(before.results@, task_id, queue, result, before.now, after.results@)
}

/// Marks a task as done and stores its result.
pub fn complete_with_result(store: &mut Store, task_id: i64, queue: &str, result: Json) -> (r:
    Result<()>)
    requires
        old(store).wf(),
    ensures
        final(store).wf(),
        r is Ok,
        completed_with(*old(store), *final(store), task_id, queue@, result),
{
    let now: Timestamp = store.now;
    let row: TaskResult = match store.results.remove(&task_id) {
        Some(held) => TaskResult { task_id, queue: held.queue, result, completed_at: now },
        None => TaskResult { task_id, queue: queue.to_owned(), result, completed_at: now },
    };
    store.results.insert(task_id, row);
    assert(store.results@ =~= old(store).results@.insert(task_id, row));
    mark_delivered(store, task_id)
}

/// Whether the stored result of a task was found, if there is one.
pub open spec fn result_found(store: Store, r: Result<Option<TaskResult>>, task_id: i64) -> bool {
    match r {
        Ok(Some(result)) => store.results@.contains_key(task_id) && result.same(
            store.results@[task_id],
        ),
        Ok(None) => !store.results@.contains_key(task_id),
        Err(e) => false,
    }
}

/// The stored result of a task.
pub fn get_result(store: &Store, task_id: i64) -> (r: Result<Option<TaskResult>>)
    requires
        store.wf(),
    ensures
        result_found(*store, r, task_id),
{
    match store.results.get(&task_id) {
        Some(result) => Ok(Some(result.clone())),
        None => Ok(None),
    }
}

/// Enters that a task has failed.
pub fn fail(store: &mut Store, task_id: i64, max_retries: i32, attempts: i32) -> (r: Result<()>)
    requires
        old(store).wf(),
        attempts_in_range(max_retries, attempts),
    ensures
        final(store).wf(),
        failed(*old(store), *final(store), r, task_id, max_retries, attempts),
{
    mark_failed(store, task_id, max_retries, attempts)
}

/// Whether a task is there and claimed.
pub open spec fn is_claimed(rows: Seq<OutboxRow>, task_id: i64) -> bool {
    exists|i: int|
        0 <= i < rows.len() && (#[trigger] rows[i]).id == task_id && rows[i].status is Claimed
}

/// Whether a claimed task stays out of sight for that long, or what was wrong. The time matters only
/// where there is such a task.
pub open spec fn extended(
    before: Store,
    after: Store,
    r: Result<()>,
    task_id: i64,
    extend_by: Span,
) -> bool {
    match later(before.now, extend_by) {
        Some(visible_at) => r is Ok && row_changed(
            before,
            after,
            task_id,
            Change::Extend { visible_at },
        ),
        None => {
            &&& after == before
            &&& if is_claimed(before.outbox@, task_id) {
                r == Result::<()>::Err(StrunkError::Database(DbError::OutOfRange))
            } else {
                r is Ok
            }
        },
    }
}

/// Keeps a claimed task out of sight for that long from now on.
pub fn heartbeat(store: &mut Store, task_id: i64, extend_by: Span) -> (r: Result<()>)
    requires
        old(store).wf(),
    ensures
        final(store).wf(),
        extended(*old(store), *final(store), r, task_id, extend_by),
{
    match add_span(store.now, extend_by) {
        Some(visible_at) => store.change(task_id, Change::Extend { visible_at }),
        None => match find_id(&store.outbox, task_id) {
            Some(i) => if store.outbox[i].status == MessageStatus::Claimed {
                assert(is_claimed(store.outbox@, task_id));
                Err(StrunkError::Database(DbError::OutOfRange))
            } else {
                assert forall|j: int|
                    0 <= j < store.outbox@.len() && (#[trigger] store.outbox@[j]).id
                        == task_id implies j == i by {
                    assert(distinct_ids(store.outbox@));
                    if j < i {
                        assert(store.outbox@[j].id != store.outbox@[i as int].id);
                    } else if i < j {
                        assert(store.outbox@[i as int].id != store.outbox@[j].id);
                    }
                }
                Ok(())
            },
            None => Ok(()),
        },
    }
}

/// A percentage that is kept within its bounds.
pub open spec fn clamped(progress: i16) -> i16 {
    if progress < 0 {
        0
    } else if progress > 100 {
        100
    } else {
        progress
    }
}

/// Keeps a percentage within its bounds.
pub fn clamp_progress(progress: i16) -> (r: i16)
    ensures
        r == clamped(progress),
{
    if progress < 0 {
        0
    } else if progress > 100 {
        100
    } else {
        progress
    }
}

/// Whether it was entered how far a claimed task has got, if there is one, and nothing else was done.
pub open spec fn progressed(before: Store, after: Store, task_id: i64, progress: i16) -> bool {
    row_changed(before, after, task_id, Change::Progress { progress: clamped(progress) })
}

/// Enters how far a claimed task has got, in percent.
pub fn set_progress(store: &mut Store, task_id: i64, progress: i16) -> (r: Result<()>)
    requires
        old(store).wf(),
    ensures
        final(store).wf(),
        r is Ok,
        progressed(*old(store), *final(store), task_id, progress),
{
    store.change(task_id, Change::Progress { progress: clamp_progress(progress) })
}

/// Whether it was found how far a task has got, if there is one.
pub open spec fn progress_found(store: Store, r: Result<Option<i16>>, task_id: i64) -> bool {
    match r {
        Ok(Some(progress)) => exists|i: int|
            0 <= i < store.outbox@.len() && (#[trigger] store.outbox@[i]).id == task_id
                && store.outbox@[i].progress == progress,
        Ok(None) => forall|i: int|
            0 <= i < store.outbox@.len() ==> (#[trigger] store.outbox@[i]).id != task_id,
        Err(e) => false,
    }
}

/// How far a task has got, if there is one.
pub fn get_progress(store: &Store, task_id: i64) -> (r: Result<Option<i16>>)
    requires
        store.wf(),
    ensures
        progress_found(*store, r, task_id),
{
    match find_id(&store.outbox, task_id) {
        Some(i) => Ok(Some(store.outbox[i].progress)),
        None => Ok(None),
    }
}

/// Whether a consumer has processed a message.
pub fn inbox_contains(store: &Store, consumer_id: &str, message_id: i64) -> (r: Result<bool>)
    requires
        store.wf(),
    ensures
        r == Result::<bool>::Ok(store.inbox@.contains_key((consumer_id@, message_id))),
{
    Ok(store.inbox.contains_key(&(consumer_id.to_owned(), message_id)))
}

/// Whether it was entered that a consumer has processed a message. The first entry stands.
pub open spec fn inbox_marked(
    before: Store,
    after: Store,
    consumer_id: Seq<char>,
    message_id: i64,
) -> bool {
    &&& after == (Store { inbox: after.inbox, ..before })
    &&& after.inbox@ == if before.inbox@.contains_key((consumer_id, message_id)) {
        before.inbox@
    } else {
        before.inbox@.insert((consumer_id, message_id), before.now)
    }
}

/// Enters that a consumer has processed a message.
pub fn inbox_mark(store: &mut Store, consumer_id: &str, message_id: i64) -> (r: Result<()>)
    requires
        old(store).wf(),
    ensures
        final(store).wf(),
        r is Ok,
        inbox_marked(*old(store), *final(store), consumer_id@, message_id),
{
    let key: (String, i64) = (consumer_id.to_owned(), message_id);
    let now: Timestamp = store.now;
    if !store.inbox.contains_key(&key) {
        store.inbox.insert(key, now);
    }
    Ok(())
}

} // verus!
