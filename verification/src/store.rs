//! The tables that the library works on, the database's clock, and transactions.
use vstd::prelude::*;

use crate::dict::Dict;
use crate::error::{DbError, Result, StrunkError};
use crate::json::Json;
use crate::outbox::{
    change_refused, change_row, changed, dedup_taken, distinct_dedup, distinct_ids, has_dedup,
    is_active, is_dedup_taken, same_dedup, Change,
};
use crate::scheduler::Schedule;
use crate::subscriber::lists_id;
use crate::time::{add_span, later, Span, Timestamp, MAX_TIMESTAMP};
use crate::types::{MessageKind, MessageStatus, OutboxRow, TaskResult};

verus! {

/// A subscriber and its cursor.
#[derive(Debug)]
pub struct SubscriberRow {
    pub entity_type: String,
    pub last_seen_id: i64,
    pub schema_version: String,
    pub registered_at: Timestamp,
}

/// The latest state of an entity.
#[derive(Debug)]
pub struct SnapshotRow {
    pub state: Json,
    pub version: String,
    pub updated_at: Timestamp,
}

/// A stored schema document.
#[derive(Debug)]
pub struct SchemaRow {
    pub schema: Json,
    pub created_at: Timestamp,
}

/// The tables and the clock of a database.
pub struct Store {
    /// The database's time.
    pub now: Timestamp,
    /// The identifier of the next row of the outbox.
    pub next_id: i64,
    pub outbox: Vec<OutboxRow>,
    /// The identifiers of the events that open transactions have written.
    pub held: Vec<i64>,
    /// By identifier.
    pub subscribers: Dict<String, SubscriberRow>,
    /// By entity type and entity identifier.
    pub snapshots: Dict<(String, String), SnapshotRow>,
    /// By task.
    pub results: Dict<i64, TaskResult>,
    /// By identifier.
    pub schedules: Dict<String, Schedule>,
    /// When a consumer has processed a message.
    pub inbox: Dict<(String, i64), Timestamp>,
    /// By entity type and version.
    pub schemas: Dict<(String, String), SchemaRow>,
}

/// The rows of an outbox have different identifiers below the next one, and no two of those that
/// are still to be worked off have the same deduplication key.
pub open spec fn rows_wf(rows: Seq<OutboxRow>, next_id: i64) -> bool {
    &&& distinct_ids(rows)
    &&& distinct_dedup(rows)
    &&& forall|i: int| 0 <= i < rows.len() ==> 0 < (#[trigger] rows[i]).id < next_id
}

/// A change that is not refused keeps the table in order.
pub proof fn change_keeps_rows_wf(rows: Seq<OutboxRow>, next_id: i64, id: i64, change: Change)
    requires
        rows_wf(rows, next_id),
        !change_refused(rows, id, change),
    ensures
        rows_wf(changed(rows, id, change), next_id),
{
    let after = changed(rows, id, change);
    assert forall|i: int| 0 <= i < after.len() implies {
        &&& (#[trigger] after[i]).id == rows[i].id
        &&& after[i].dedup_key == rows[i].dedup_key
        &&& rows[i].id != id ==> after[i] == rows[i]
    } by {}
    assert forall|i: int, j: int| 0 <= i < j < after.len() implies (#[trigger] after[i]).id != (
    #[trigger] after[j]).id by {
        assert(rows[i].id != rows[j].id);
    }
    assert forall|i: int, j: int|
        #![trigger after[i], after[j]]
        0 <= i < j < after.len() && is_active(after[i]) && is_active(after[j]) implies !same_dedup(
        after[i],
        after[j],
    ) by {
        assert(rows[i].id != rows[j].id);
        if same_dedup(after[i], after[j]) {
            if !is_active(rows[i]) {
                assert(is_active(rows[j]) && has_dedup(rows[j], rows[i].dedup_key->0@));
                assert(change.refused(rows, rows[i]));
            } else if !is_active(rows[j]) {
                assert(is_active(rows[i]) && has_dedup(rows[i], rows[j].dedup_key->0@));
                assert(change.refused(rows, rows[j]));
            }
        }
    }
    assert forall|i: int| 0 <= i < after.len() implies 0 < (#[trigger] after[i]).id < next_id by {
        assert(0 < rows[i].id < next_id);
    }
}

/// There are fewer rows than identifiers that have been given out.
pub proof fn rows_are_countable(rows: Seq<OutboxRow>, next_id: i64)
    requires
        rows_wf(rows, next_id),
        1 <= next_id,
    ensures
        rows.len() < next_id,
{
    let ids = Seq::new(rows.len(), |i: int| rows[i].id - 1);
    assert forall|i: int| 0 <= i < ids.len() implies 0 <= #[trigger] ids[i] < next_id - 1 by {
        assert(0 < rows[i].id < next_id);
    }
    assert forall|i: int, j: int| 0 <= i < ids.len() && 0 <= j < ids.len() && i != j implies ids[i]
        != ids[j] by {
        if i < j {
            assert(rows[i].id != rows[j].id);
        } else {
            assert(rows[j].id != rows[i].id);
        }
    }
    crate::ranking::lemma_distinct_below(ids, (next_id - 1) as nat);
}

impl Store {
    /// Whether the tables keep their keys apart.
    pub open spec fn wf(self) -> bool {
        &&& 0 <= self.now <= MAX_TIMESTAMP
        &&& 1 <= self.next_id
        &&& rows_wf(self.outbox@, self.next_id)
        &&& forall|i: int| 0 <= i < self.held@.len() ==> 0 < #[trigger] self.held@[i] < self.next_id
        &&& self.subscribers.wf()
        &&& self.snapshots.wf()
        &&& self.results.wf()
        &&& self.schedules.wf()
        &&& self.inbox.wf()
        &&& self.schemas.wf()
        &&& forall|k: i64| #[trigger]
            self.results@.contains_key(k) ==> self.results@[k].task_id == k
        &&& forall|k: Seq<char>| #[trigger]
            self.schedules@.contains_key(k) ==> self.schedules@[k].id@ == k
    }

    /// Empty tables.
    pub fn new(now: Timestamp) -> (r: Store)
        requires
            0 <= now <= MAX_TIMESTAMP,
        ensures
            r.wf(),
            r.now == now,
            r.next_id == 1,
            r.outbox@.len() == 0,
            r.held@.len() == 0,
            r.subscribers@ == Map::<Seq<char>, SubscriberRow>::empty(),
            r.snapshots@ == Map::<(Seq<char>, Seq<char>), SnapshotRow>::empty(),
            r.results@ == Map::<i64, TaskResult>::empty(),
            r.schedules@ == Map::<Seq<char>, Schedule>::empty(),
            r.inbox@ == Map::<(Seq<char>, i64), Timestamp>::empty(),
            r.schemas@ == Map::<(Seq<char>, Seq<char>), SchemaRow>::empty(),
    {
        Store {
            now,
            next_id: 1,
            outbox: Vec::new(),
            held: Vec::new(),
            subscribers: Dict::new(),
            snapshots: Dict::new(),
            results: Dict::new(),
            schedules: Dict::new(),
            inbox: Dict::new(),
            schemas: Dict::new(),
        }
    }

    /// Lets time pass.
    pub fn advance(&mut self, span: Span)
        requires
            old(self).wf(),
            old(self).now + span.micros <= MAX_TIMESTAMP,
        ensures
            final(self).wf(),
            *final(self) == (Store { now: (old(self).now + span.micros) as i64, ..*old(self) }),
    {
        self.now = self.now + span.micros as i64;
    }

    /// Changes the row with an identifier, if there is one that the change is for.
    pub fn change(&mut self, id: i64, change: Change) -> (r: Result<()>)
        requires
            old(self).wf(),
        ensures
            final(self).wf(),
            *final(self) == (Store { outbox: final(self).outbox, ..*old(self) }),
            match r {
                Ok(()) => !change_refused(old(self).outbox@, id, change) && final(self).outbox@
                    == changed(old(self).outbox@, id, change),
                Err(e) => change_refused(old(self).outbox@, id, change) && e
                    == StrunkError::Database(DbError::UniqueViolation) && final(self).outbox@
                    == old(self).outbox@,
            },
    {
        match change_row(&mut self.outbox, id, change) {
            Ok(()) => {
                proof {
                    change_keeps_rows_wf(old(self).outbox@, old(self).next_id, id, change);
                }
                Ok(())
            },
            Err(e) => Err(StrunkError::Database(e)),
        }
    }

    /// Starts a transaction.
    pub fn begin(&self) -> (r: Transaction)
        requires
            self.wf(),
        ensures
            r.started_at == self.now,
            r.rows@.len() == 0,
            r.snapshots@.len() == 0,
            !r.aborted,
            r.fits(*self),
    {
        Transaction {
            started_at: self.now,
            rows: Vec::new(),
            snapshots: Vec::new(),
            aborted: false,
        }
    }
}

/// A row that is to be written to the outbox.
#[derive(Debug)]
pub struct NewRow {
    pub kind: MessageKind,
    pub key: String,
    pub dedup_key: Option<String>,
    pub payload: Json,
    pub metadata: Json,
    pub priority: i32,
    pub max_retries: i32,
    pub delay: Span,
}

impl NewRow {
    /// The row as it stands in the outbox.
    pub open spec fn row(self, id: i64, at: Timestamp, visible_at: Timestamp) -> OutboxRow {
        OutboxRow {
            id,
            kind: self.kind,
            key: self.key,
            dedup_key: self.dedup_key,
            payload: self.payload,
            metadata: self.metadata,
            status: MessageStatus::Pending,
            attempts: 0,
            max_retries: self.max_retries,
            priority: self.priority,
            progress: 0,
            visible_at,
            created_at: at,
            delivered_at: None,
        }
    }
}

/// A snapshot that is to be written.
#[derive(Debug)]
pub struct NewSnapshot {
    pub entity_type: String,
    pub entity_id: String,
    pub state: Json,
    pub version: String,
}

/// Writes that nobody sees before they are committed. A transaction that is not committed leaves no
/// trace but the identifiers it used up. Until it is committed or rolled back, no subscriber gets
/// past the events that it wrote.
pub struct Transaction {
    pub started_at: Timestamp,
    pub rows: Vec<OutboxRow>,
    pub snapshots: Vec<NewSnapshot>,
    /// A write failed, so nothing will be written.
    pub aborted: bool,
}

/// No row of one table has the identifier of a row of the other.
pub open spec fn disjoint_ids(a: Seq<OutboxRow>, b: Seq<OutboxRow>) -> bool {
    forall|i: int, j: int|
        0 <= i < a.len() && 0 <= j < b.len() ==> (#[trigger] a[i]).id != (#[trigger] b[j]).id
}

/// The identifiers of the events that open transactions have written.
pub open spec fn held_ids(store: Store) -> Set<i64> {
    Set::new(|id: i64| store.held@.contains(id))
}

/// The identifiers of some rows.
pub open spec fn ids_of(rows: Seq<OutboxRow>) -> Set<i64> {
    Set::new(|id: i64| lists_id(rows, id))
}

/// The identifiers that none of the rows has.
fn without_ids(held: &Vec<i64>, rows: &Vec<OutboxRow>) -> (r: Vec<i64>)
    ensures
        forall|id: i64| #[trigger]
            r@.contains(id) <==> held@.contains(id) && !lists_id(rows@, id),
{
    let mut rest: Vec<i64> = Vec::new();
    let n: usize = held.len();
    let mut i: usize = 0;
    while i < n
        invariant
            n == held.len(),
            i <= n,
            forall|k: int|
                0 <= k < rest@.len() ==> held@.contains(#[trigger] rest@[k]) && !lists_id(
                    rows@,
                    rest@[k],
                ),
            forall|j: int|
                0 <= j < i && !lists_id(rows@, #[trigger] held@[j]) ==> rest@.contains(held@[j]),
        decreases n - i,
    {
        let id: i64 = held[i];
        let ghost before = rest@;
        if !has_id(rows, id) {
            rest.push(id);
            assert(rest@[before.len() as int] == id);
        }
        assert forall|j: int| 0 <= j < i + 1 && !lists_id(
            rows@,
            #[trigger] held@[j],
        ) implies rest@.contains(held@[j]) by {
            if j < i {
                let k = before.index_of(held@[j]);
                assert(rest@[k] == held@[j]);
            }
        }
        i = i + 1;
    }
    assert forall|id: i64| #[trigger]
        rest@.contains(id) <==> held@.contains(id) && !lists_id(rows@, id) by {
        if held@.contains(id) && !lists_id(rows@, id) {
            let j = held@.index_of(id);
            assert(held@[j] == id);
        }
        if rest@.contains(id) {
            let k = rest@.index_of(id);
            assert(rest@[k] == id);
        }
    }
    rest
}

/// Lets go of the identifiers of some rows.
fn release(store: &mut Store, rows: &Vec<OutboxRow>)
    requires
        old(store).wf(),
    ensures
        final(store).wf(),
        *final(store) == (Store { held: final(store).held, ..*old(store) }),
        held_ids(*final(store)) == held_ids(*old(store)).difference(ids_of(rows@)),
{
    store.held = without_ids(&store.held, rows);
    assert forall|i: int| 0 <= i < store.held@.len() implies 0 < #[trigger] store.held@[i]
        < store.next_id by {
        assert(store.held@.contains(store.held@[i]));
        let k = old(store).held@.index_of(store.held@[i]);
        assert(old(store).held@[k] == store.held@[i]);
    }
    assert(held_ids(*store) =~= held_ids(*old(store)).difference(ids_of(rows@)));
}

/// Whether one of the rows has an identifier.
fn has_id(rows: &Vec<OutboxRow>, id: i64) -> (r: bool)
    ensures
        r == lists_id(rows@, id),
{
    let n: usize = rows.len();
    let mut i: usize = 0;
    while i < n
        invariant
            n == rows.len(),
            i <= n,
            forall|k: int| 0 <= k < i ==> (#[trigger] rows@[k]).id != id,
        decreases n - i,
    {
        if rows[i].id == id {
            return true;
        }
        i = i + 1;
    }
    false
}

impl Transaction {
    /// Whether the rows of the transaction can stand beside those of the store, which holds the
    /// identifiers of its events.
    pub open spec fn fits(self, store: Store) -> bool {
        &&& rows_wf(self.rows@, store.next_id)
        &&& disjoint_ids(self.rows@, store.outbox@)
        &&& forall|i: int|
            0 <= i < self.rows@.len() && (#[trigger] self.rows@[i]).kind is Event
                ==> store.held@.contains(self.rows@[i].id)
        &&& forall|i: int| 0 <= i < self.rows@.len() ==> (#[trigger] self.rows@[i]).status is Pending
    }

    /// Writes a row.
    pub fn insert(&mut self, store: &mut Store, new: NewRow) -> (r: Result<i64>)
        requires
            old(store).wf(),
            old(self).fits(*old(store)),
        ensures
            final(store).wf(),
            final(self).fits(*final(store)),
            inserted(*old(self), *old(store), *final(self), *final(store), r, new),
    {
        if self.aborted {
            return Err(StrunkError::Database(DbError::TransactionAborted));
        }
        if store.next_id == i64::MAX {
            self.aborted = true;
            return Err(StrunkError::Database(DbError::OutOfRange));
        }
        let id: i64 = store.next_id;
        store.next_id = id + 1;
        let visible_at: Timestamp = match add_span(self.started_at, new.delay) {
            Some(at) => at,
            None => {
                self.aborted = true;
                return Err(StrunkError::Database(DbError::OutOfRange));
            },
        };
        if is_dedup_taken(&store.outbox, &new.dedup_key) || is_dedup_taken(
            &self.rows,
            &new.dedup_key,
        ) {
            self.aborted = true;
            return Err(StrunkError::Database(DbError::UniqueViolation));
        }
        let ghost before = self.rows@;
        let ghost held = store.held@;
        if new.kind == MessageKind::Event {
            store.held.push(id);
        }
        self.rows.push(
            OutboxRow {
                id,
                kind: new.kind,
                key: new.key,
                dedup_key: new.dedup_key,
                payload: new.payload,
                metadata: new.metadata,
                status: MessageStatus::Pending,
                attempts: 0,
                max_retries: new.max_retries,
                priority: new.priority,
                progress: 0,
                visible_at,
                created_at: self.started_at,
                delivered_at: None,
            },
        );
        proof {
            let after = self.rows@;
            assert forall|i: int, j: int|
                #![trigger after[i], after[j]]
                0 <= i < j < after.len() && is_active(after[i]) && is_active(
                    after[j],
                ) implies !same_dedup(after[i], after[j]) by {
                if j == before.len() && same_dedup(after[i], after[j]) {
                    assert(is_active(before[i]) && has_dedup(before[i], new.dedup_key->0@));
                }
            }
            assert forall|i: int|
                0 <= i < after.len() && (#[trigger] after[i]).kind is Event implies store.held@.contains(
                after[i].id,
            ) by {
                if i < before.len() {
                    assert(after[i] == before[i]);
                    let k = held.index_of(before[i].id);
                    assert(store.held@[k] == before[i].id);
                } else {
                    assert(store.held@[held.len() as int] == id);
                }
            }
        }
        Ok(id)
    }

    /// Writes a snapshot.
    pub fn put_snapshot(&mut self, snapshot: NewSnapshot) -> (r: Result<()>)
        ensures
            match r {
                Ok(()) => !old(self).aborted && *final(self) == (Transaction {
                    snapshots: final(self).snapshots,
                    ..*old(self)
                }) && final(self).snapshots@ == old(self).snapshots@.push(snapshot),
                Err(e) => old(self).aborted && e == StrunkError::Database(
                    DbError::TransactionAborted,
                ) && *final(self) == *old(self),
            },
    {
        if self.aborted {
            return Err(StrunkError::Database(DbError::TransactionAborted));
        }
        self.snapshots.push(snapshot);
        Ok(())
    }

    /// Makes all writes of the transaction visible, or none of them.
    pub fn commit(self, store: &mut Store) -> (r: Result<()>)
        requires
            old(store).wf(),
            self.fits(*old(store)),
        ensures
            final(store).wf(),
            committed(self, *old(store), *final(store), r),
    {
        release(store, &self.rows);
        if self.aborted {
            return Ok(());
        }
        let n: usize = self.rows.len();
        let mut i: usize = 0;
        while i < n
            invariant
                n == self.rows.len(),
                i <= n,
                *store == (Store { held: store.held, ..*old(store) }),
                held_ids(*store) == held_ids(*old(store)).difference(ids_of(self.rows@)),
                store.wf(),
                !self.aborted,
                forall|j: int|
                    0 <= j < i ==> !dedup_taken(store.outbox@, (#[trigger] self.rows@[j]).dedup_key),
            decreases n - i,
        {
            if is_dedup_taken(&store.outbox, &self.rows[i].dedup_key) {
                assert(commit_refused(self, *old(store)));
                return Err(StrunkError::Database(DbError::UniqueViolation));
            }
            i = i + 1;
        }
        assert(!commit_refused(self, *old(store)));
        let ghost held = store.held;
        let ghost base = store.outbox@;
        let ghost staged = self.rows@;
        let Transaction { started_at, rows, snapshots, aborted } = self;
        let mut rows: Vec<OutboxRow> = rows;
        store.outbox.append(&mut rows);
        proof {
            let after = store.outbox@;
            assert(after == base + staged);
            assert forall|i: int, j: int|
                #![trigger after[i], after[j]]
                0 <= i < j < after.len() && is_active(after[i]) && is_active(
                    after[j],
                ) implies !same_dedup(after[i], after[j]) by {
                if i < base.len() && j >= base.len() && same_dedup(after[i], after[j]) {
                    let k = j - base.len();
                    assert(staged[k] == after[j]);
                    assert(is_active(base[i]) && has_dedup(base[i], staged[k].dedup_key->0@));
                    assert(dedup_taken(base, staged[k].dedup_key));
                } else if i >= base.len() {
                    assert(after[i] == staged[i - base.len()]);
                    assert(after[j] == staged[j - base.len()]);
                }
            }
            assert forall|i: int, j: int| 0 <= i < j < after.len() implies (#[trigger] after[i]).id
                != (#[trigger] after[j]).id by {
                if i >= base.len() {
                    assert(after[i] == staged[i - base.len()]);
                    assert(after[j] == staged[j - base.len()]);
                } else if j >= base.len() {
                    assert(staged[j - base.len()].id != base[i].id);
                }
            }
        }
        write_snapshots(&mut store.snapshots, snapshots, started_at);
        assert(store.held == held);
        assert(held_ids(*store) =~= held_ids(*old(store)).difference(ids_of(staged)));
        Ok(())
    }

    /// Gives the writes of the transaction up.
    pub fn rollback(self, store: &mut Store)
        requires
            old(store).wf(),
        ensures
            final(store).wf(),
            rolled_back(self, *old(store), *final(store)),
    {
        release(store, &self.rows);
    }
}

/// Whether a transaction was committed: all its writes are visible now, or none of them, and it
/// holds no identifiers any longer.
pub open spec fn committed(tx: Transaction, before: Store, after: Store, r: Result<()>) -> bool {
    &&& after == (Store {
        outbox: after.outbox,
        snapshots: after.snapshots,
        held: after.held,
        ..before
    })
    &&& held_ids(after) == held_ids(before).difference(ids_of(tx.rows@))
    &&& if tx.aborted || commit_refused(tx, before) {
        &&& after.outbox == before.outbox
        &&& after.snapshots == before.snapshots
        &&& tx.aborted ==> r is Ok
        &&& !tx.aborted ==> r == Result::<()>::Err(StrunkError::Database(DbError::UniqueViolation))
    } else {
        &&& r is Ok
        &&& after.outbox@ == before.outbox@ + tx.rows@
        &&& after.snapshots@ == with_snapshots(before.snapshots@, tx.snapshots@, tx.started_at)
    }
}

/// Whether a transaction was given up: nothing has become of it, and it holds no identifiers any
/// longer.
pub open spec fn rolled_back(tx: Transaction, before: Store, after: Store) -> bool {
    &&& after == (Store { held: after.held, ..before })
    &&& held_ids(after) == held_ids(before).difference(ids_of(tx.rows@))
}

/// Whether a row was written to a transaction under the next identifier, or why not.
pub open spec fn inserted(
    tx: Transaction,
    store: Store,
    tx_after: Transaction,
    store_after: Store,
    r: Result<i64>,
    new: NewRow,
) -> bool {
    &&& store_after == (Store {
        next_id: store_after.next_id,
        held: store_after.held,
        ..store
    })
    &&& store.next_id <= store_after.next_id
    &&& if new.kind is Event && insert_error(tx, store, new) is None {
        store_after.held@ == store.held@.push(store.next_id)
    } else {
        store_after.held == store.held
    }
    &&& tx_after == (Transaction { rows: tx_after.rows, aborted: tx_after.aborted, ..tx })
    &&& match insert_error(tx, store, new) {
        Some(e) => {
            &&& r == Result::<i64>::Err(StrunkError::Database(e))
            &&& tx_after.rows@ == tx.rows@
            &&& tx_after.aborted
        },
        None => {
            let id = store.next_id;
            &&& r == Result::<i64>::Ok(id)
            &&& store_after.next_id == id + 1
            &&& !tx_after.aborted
            &&& tx_after.rows@ == tx.rows@.push(
                new.row(id, tx.started_at, later(tx.started_at, new.delay)->0),
            )
        },
    }
}

/// A transaction that writes a row does not get in the way of another that is open.
pub proof fn writing_leaves_other_transactions_alone(
    tx: Transaction,
    before: Store,
    tx_after: Transaction,
    after: Store,
    r: Result<i64>,
    new: NewRow,
    other: Transaction,
)
    requires
        inserted(tx, before, tx_after, after, r, new),
        other.fits(before),
        disjoint_ids(tx.rows@, other.rows@),
    ensures
        other.fits(after),
        disjoint_ids(tx_after.rows@, other.rows@),
{
    assert forall|i: int|
        0 <= i < other.rows@.len() && (#[trigger] other.rows@[i]).kind is Event implies after.held@.contains(
        other.rows@[i].id,
    ) by {
        let k = before.held@.index_of(other.rows@[i].id);
        assert(after.held@[k] == before.held@[k]);
    }
}

/// A transaction that ends does not get in the way of another that is open.
pub proof fn ending_leaves_other_transactions_alone(
    tx: Transaction,
    before: Store,
    after: Store,
    other: Transaction,
)
    requires
        rolled_back(tx, before, after) || exists|r: Result<()>| #[trigger]
            committed(tx, before, after, r),
        other.fits(before),
        disjoint_ids(tx.rows@, other.rows@),
    ensures
        other.fits(after),
{
    assert forall|i: int|
        0 <= i < other.rows@.len() && (#[trigger] other.rows@[i]).kind is Event implies after.held@.contains(
        other.rows@[i].id,
    ) by {
        let id = other.rows@[i].id;
        assert(held_ids(before).contains(id));
        assert(!ids_of(tx.rows@).contains(id));
        assert(held_ids(after).contains(id));
    }
    assert forall|i: int, j: int|
        0 <= i < other.rows@.len() && 0 <= j < after.outbox@.len() implies (
    #[trigger] other.rows@[i]).id != (#[trigger] after.outbox@[j]).id by {
        if j >= before.outbox@.len() {
            assert(after.outbox@[j] == tx.rows@[j - before.outbox@.len()]);
        } else {
            assert(after.outbox@[j] == before.outbox@[j]);
        }
    }
}

/// Why a row cannot be written, if it cannot.
pub open spec fn insert_error(tx: Transaction, store: Store, new: NewRow) -> Option<DbError> {
    if tx.aborted {
        Some(DbError::TransactionAborted)
    } else if store.next_id == i64::MAX || later(tx.started_at, new.delay) is None {
        Some(DbError::OutOfRange)
    } else if dedup_taken(store.outbox@, new.dedup_key) || dedup_taken(tx.rows@, new.dedup_key) {
        Some(DbError::UniqueViolation)
    } else {
        None
    }
}

/// Whether a deduplication key of the transaction has been taken since.
pub open spec fn commit_refused(tx: Transaction, store: Store) -> bool {
    exists|i: int|
        0 <= i < tx.rows@.len() && dedup_taken(store.outbox@, (#[trigger] tx.rows@[i]).dedup_key)
}

/// The snapshots after some more have been written, each in the place of an earlier one of the
/// same entity.
pub open spec fn with_snapshots(
    table: Map<(Seq<char>, Seq<char>), SnapshotRow>,
    snapshots: Seq<NewSnapshot>,
    at: Timestamp,
) -> Map<(Seq<char>, Seq<char>), SnapshotRow>
    decreases snapshots.len(),
{
    if snapshots.len() == 0 {
        table
    } else {
        let last = snapshots.last();
        with_snapshots(table, snapshots.drop_last(), at).insert(
            (last.entity_type@, last.entity_id@),
            SnapshotRow { state: last.state, version: last.version, updated_at: at },
        )
    }
}

fn write_snapshots(
    table: &mut Dict<(String, String), SnapshotRow>,
    snapshots: Vec<NewSnapshot>,
    at: Timestamp,
)
    requires
        old(table).wf(),
    ensures
        final(table).wf(),
        final(table)@ == with_snapshots(old(table)@, snapshots@, at),
    decreases snapshots@.len(),
{
    let mut rest: Vec<NewSnapshot> = snapshots;
    match rest.pop() {
        Some(last) => {
            assert(rest@ == snapshots@.drop_last());
            write_snapshots(table, rest, at);
            table.insert(
                (last.entity_type, last.entity_id),
                SnapshotRow { state: last.state, version: last.version, updated_at: at },
            );
        },
        None => {},
    }
}

} // verus!
