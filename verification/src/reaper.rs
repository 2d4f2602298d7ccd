//! The reaper, which deletes rows whose retention is over.
use vstd::prelude::*;

use crate::dict::Dict;
use crate::error::{DbError, Result, StrunkError};
use crate::outbox::{is_active, same_dedup};
use crate::store::{rows_wf, Store};
use crate::time::{Span, Timestamp};
use crate::types::{MessageStatus, OutboxRow};

verus! {

/// Whether so much time has passed since then.
pub open spec fn past(at: Timestamp, retention: Span, now: Timestamp) -> bool {
    at + retention.micros < now
}

/// How the reaper goes about its work.
#[derive(Debug)]
pub struct Reaper {
    /// How long rows that were worked off are kept.
    pub retention_delivered: Span,
    /// How long rows that were given up are kept.
    pub retention_dead: Span,
    /// How many rows are deleted at a time.
    pub batch_size: i64,
    /// How long the reaper waits between two rounds.
    pub interval: Span,
}

/// The entries of the inbox whose retention is not over.
pub open spec fn kept_entries(
    inbox: Map<(Seq<char>, i64), Timestamp>,
    retention: Span,
    now: Timestamp,
) -> Map<(Seq<char>, i64), Timestamp> {
    Map::new(
        |k: (Seq<char>, i64)| inbox.contains_key(k) && !past(inbox[k], retention, now),
        |k: (Seq<char>, i64)| inbox[k],
    )
}

impl Reaper {
    /// Whether a row's retention is over.
    pub open spec fn expired(self, row: OutboxRow, now: Timestamp) -> bool {
        match row.delivered_at {
            Some(at) => (row.status is Delivered && past(at, self.retention_delivered, now)) || (
            row.status is Dead && past(at, self.retention_dead, now)),
            None => false,
        }
    }

    /// The rows whose retention is not over, in the order of the table.
    pub open spec fn kept(self, rows: Seq<OutboxRow>, now: Timestamp) -> Seq<OutboxRow> {
        rows.filter(|row: OutboxRow| !self.expired(row, now))
    }

    pub fn new() -> (r: Reaper)
        ensures
            r.retention_delivered.micros == 604_800_000_000,
            r.retention_dead.micros == 2_592_000_000_000,
            r.batch_size == 10_000,
            r.interval.micros == 300_000_000,
    {
        Reaper {
            retention_delivered: Span::from_secs(604_800),
            retention_dead: Span::from_secs(2_592_000),
            batch_size: 10_000,
            interval: Span::from_secs(300),
        }
    }

    pub fn retention_delivered(self, retention: Span) -> (r: Reaper)
        ensures
            r == (Reaper { retention_delivered: retention, ..self }),
    {
        Reaper { retention_delivered: retention, ..self }
    }

    pub fn retention_dead(self, retention: Span) -> (r: Reaper)
        ensures
            r == (Reaper { retention_dead: retention, ..self }),
    {
        Reaper { retention_dead: retention, ..self }
    }

    pub fn batch_size(self, size: i64) -> (r: Reaper)
        ensures
            r == (Reaper { batch_size: size, ..self }),
    {
        Reaper { batch_size: size, ..self }
    }

    pub fn interval(self, interval: Span) -> (r: Reaper)
        ensures
            r == (Reaper { interval, ..self }),
    {
        Reaper { interval, ..self }
    }

    /// Whether a batch of so many rows was the last of a round.
    pub fn is_last_batch(&self, deleted: u64) -> (r: bool)
        ensures
            r == (deleted < self.batch_size),
    {
        (deleted as i128) < self.batch_size as i128
    }

    fn is_expired(&self, row: &OutboxRow, now: Timestamp) -> (r: bool)
        ensures
            r == self.expired(*row, now),
    {
        match row.delivered_at {
            Some(at) => (row.status == MessageStatus::Delivered && is_past(
                at,
                self.retention_delivered,
                now,
            )) || (row.status == MessageStatus::Dead && is_past(at, self.retention_dead, now)),
            None => false,
        }
    }

    /// Deletes as many rows whose retention is over as a batch holds.
    fn delete_batch(&self, store: &mut Store) -> (r: u64)
        requires
            old(store).wf(),
            self.batch_size > 0,
        ensures
            final(store).wf(),
            *final(store) == (Store { outbox: final(store).outbox, ..*old(store) }),
            self.kept(final(store).outbox@, old(store).now) == self.kept(
                old(store).outbox@,
                old(store).now,
            ),
            r + final(store).outbox@.len() == old(store).outbox@.len(),
            r <= self.batch_size,
            r < self.batch_size ==> forall|i: int|
                0 <= i < final(store).outbox@.len() ==> !self.expired(
                    #[trigger] final(store).outbox@[i],
                    old(store).now,
                ),
    {
        let now: Timestamp = store.now;
        let mut deleted: u64 = 0;
        let mut i: usize = 0;
        while i < store.outbox.len() && (deleted as i128) < self.batch_size as i128
            invariant
                now == old(store).now,
                self.batch_size > 0,
                store.wf(),
                *store == (Store { outbox: store.outbox, ..*old(store) }),
                i <= store.outbox.len(),
                deleted <= self.batch_size,
                deleted + store.outbox@.len() == old(store).outbox@.len(),
                self.kept(store.outbox@, now) == self.kept(old(store).outbox@, now),
                forall|j: int| 0 <= j < i ==> !self.expired(#[trigger] store.outbox@[j], now),
            decreases store.outbox@.len() - i,
        {
            if self.is_expired(&store.outbox[i], now) {
                let ghost before = store.outbox@;
                let _: OutboxRow = store.outbox.remove(i);
                proof {
                    lemma_remove_keeps_wf(before, i as int, store.next_id);
                    lemma_remove_left_out(
                        before,
                        i as int,
                        |row: OutboxRow| !self.expired(row, now),
                    );
                }
                deleted = deleted + 1;
            } else {
                i = i + 1;
            }
        }
        deleted
    }

    /// Deletes all rows whose retention is over, batch by batch, and the entries of the inbox that
    /// are as old as rows that were worked off. Hands out how many rows were deleted.
    pub fn reap_once(&self, store: &mut Store) -> (r: Result<u64>)
        requires
            old(store).wf(),
            self.batch_size != 0,
        ensures
            final(store).wf(),
            reaped(*self, *old(store), *final(store), r),
    {
        if self.batch_size < 0 {
            return Err(StrunkError::Database(DbError::NegativeLimit));
        }
        let now: Timestamp = store.now;
        let mut total: u64 = 0;
        loop
            invariant_except_break
                total + store.outbox@.len() == old(store).outbox@.len(),
            invariant
                now == old(store).now,
                self.batch_size > 0,
                store.wf(),
                *store == (Store { outbox: store.outbox, ..*old(store) }),
                self.kept(store.outbox@, now) == self.kept(old(store).outbox@, now),
            ensures
                total + store.outbox@.len() == old(store).outbox@.len(),
                forall|i: int|
                    0 <= i < store.outbox@.len() ==> !self.expired(
                        #[trigger] store.outbox@[i],
                        now,
                    ),
            decreases store.outbox@.len(),
        {
            let deleted: u64 = self.delete_batch(store);
            assert(old(store).outbox.len() == old(store).outbox@.len());
            total = total + deleted;
            if self.is_last_batch(deleted) {
                break;
            }
        }
        proof {
            lemma_filter_all(store.outbox@, |row: OutboxRow| !self.expired(row, now));
        }
        clean_inbox(&mut store.inbox, self.retention_delivered, now);
        Ok(total)
    }
}

/// Whether the rows and the entries of the inbox whose retention is over were deleted, and nothing
/// else was done. A batch cannot hold fewer than no rows.
pub open spec fn reaped(reaper: Reaper, before: Store, after: Store, r: Result<u64>) -> bool {
    &&& after == (Store { outbox: after.outbox, inbox: after.inbox, ..before })
    &&& if reaper.batch_size < 0 {
        &&& r == Result::<u64>::Err(StrunkError::Database(DbError::NegativeLimit))
        &&& after == before
    } else {
        &&& r == Result::<u64>::Ok((before.outbox@.len() - after.outbox@.len()) as u64)
        &&& after.outbox@ == reaper.kept(before.outbox@, before.now)
        &&& after.inbox@ == kept_entries(before.inbox@, reaper.retention_delivered, before.now)
    }
}

fn is_past(at: Timestamp, retention: Span, now: Timestamp) -> (r: bool)
    ensures
        r == past(at, retention, now),
{
    at as i128 + (retention.micros as i128) < now as i128
}

fn clean_inbox(inbox: &mut Dict<(String, i64), Timestamp>, retention: Span, now: Timestamp)
    requires
        old(inbox).wf(),
    ensures
        final(inbox).wf(),
        final(inbox)@ == kept_entries(old(inbox)@, retention, now),
{
    let mut i: usize = 0;
    while i < inbox.len()
        invariant
            inbox.wf(),
            i <= inbox.size(),
            forall|k: (Seq<char>, i64)| #[trigger]
                inbox@.contains_key(k) ==> old(inbox)@.contains_key(k) && inbox@[k]
                    == old(inbox)@[k],
            forall|k: (Seq<char>, i64)|
                old(inbox)@.contains_key(k) && !past(old(inbox)@[k], retention, now)
                    ==> #[trigger] inbox@.contains_key(k),
            forall|j: int|
                0 <= j < i ==> !past(inbox@[#[trigger] inbox.key(j)], retention, now),
        decreases inbox.size() - i,
    {
        let at: Timestamp = *inbox.value_at(i);
        if is_past(at, retention, now) {
            let ghost before = *inbox;
            let _: Timestamp = inbox.remove_at(i);
            proof {
                assert forall|j: int| 0 <= j < i implies !past(
                    inbox@[#[trigger] inbox.key(j)],
                    retention,
                    now,
                ) by {
                    before.lemma_distinct(j, i as int);
                    assert(inbox.key(j) == before.key(j));
                }
            }
        } else {
            i = i + 1;
        }
    }
    proof {
        assert forall|k: (Seq<char>, i64)| #[trigger] inbox@.contains_key(k) implies !past(
            inbox@[k],
            retention,
            now,
        ) by {
            let j = inbox.lemma_key(k);
            assert(inbox.key(j) == k);
        }
        assert(inbox@ =~= kept_entries(old(inbox)@, retention, now));
    }
}

/// A table without one of its rows is still in order.
pub proof fn lemma_remove_keeps_wf(rows: Seq<OutboxRow>, i: int, next_id: i64)
    requires
        rows_wf(rows, next_id),
        0 <= i < rows.len(),
    ensures
        rows_wf(rows.remove(i), next_id),
{
    let after = rows.remove(i);
    assert forall|a: int, b: int| 0 <= a < b < after.len() implies (#[trigger] after[a]).id != (
    #[trigger] after[b]).id by {
        let a0 = if a < i { a } else { a + 1 };
        let b0 = if b < i { b } else { b + 1 };
        assert(after[a] == rows[a0] && after[b] == rows[b0]);
    }
    assert forall|a: int, b: int|
        #![trigger after[a], after[b]]
        0 <= a < b < after.len() && is_active(after[a]) && is_active(after[b]) implies !same_dedup(
        after[a],
        after[b],
    ) by {
        let a0 = if a < i { a } else { a + 1 };
        let b0 = if b < i { b } else { b + 1 };
        assert(after[a] == rows[a0] && after[b] == rows[b0]);
    }
    assert forall|a: int| 0 <= a < after.len() implies 0 < (#[trigger] after[a]).id < next_id by {
        let a0 = if a < i { a } else { a + 1 };
        assert(after[a] == rows[a0]);
    }
}

/// Without a row that a filter leaves out, the filter leaves the same.
pub proof fn lemma_remove_left_out(
    rows: Seq<OutboxRow>,
    i: int,
    keep: spec_fn(OutboxRow) -> bool,
)
    requires
        0 <= i < rows.len(),
        !keep(rows[i]),
    ensures
        rows.remove(i).filter(keep) == rows.filter(keep),
    decreases rows.len(),
{
    reveal(Seq::filter);
    if i == rows.len() - 1 {
        assert(rows.remove(i) =~= rows.drop_last());
    } else {
        lemma_remove_left_out(rows.drop_last(), i, keep);
        assert(rows.remove(i).drop_last() =~= rows.drop_last().remove(i));
        assert(rows.remove(i).last() == rows.last());
    }
}

/// A filter that leaves nothing out leaves everything.
pub proof fn lemma_filter_all(rows: Seq<OutboxRow>, keep: spec_fn(OutboxRow) -> bool)
    requires
        forall|i: int| 0 <= i < rows.len() ==> keep(#[trigger] rows[i]),
    ensures
        rows.filter(keep) == rows,
    decreases rows.len(),
{
    reveal(Seq::filter);
    if rows.len() > 0 {
        assert forall|i: int| 0 <= i < rows.drop_last().len() implies keep(
            #[trigger] rows.drop_last()[i],
        ) by {
            assert(rows.drop_last()[i] == rows[i]);
        }
        lemma_filter_all(rows.drop_last(), keep);
        assert(rows.drop_last().push(rows.last()) =~= rows);
    }
}

/// A row that a filter keeps stands in the table and meets the filter's condition.
pub proof fn lemma_filtered_from(
    rows: Seq<OutboxRow>,
    keep: spec_fn(OutboxRow) -> bool,
    k: int,
) -> (i: int)
    requires
        0 <= k < rows.filter(keep).len(),
    ensures
        0 <= i < rows.len(),
        rows[i] == rows.filter(keep)[k],
        keep(rows[i]),
    decreases rows.len(),
{
    reveal(Seq::filter);
    let before = rows.drop_last();
    if k < before.filter(keep).len() {
        lemma_filtered_from(before, keep, k)
    } else {
        rows.len() - 1
    }
}

/// A row that meets a filter's condition is kept.
pub proof fn lemma_filter_keeps(
    rows: Seq<OutboxRow>,
    keep: spec_fn(OutboxRow) -> bool,
    i: int,
) -> (k: int)
    requires
        0 <= i < rows.len(),
        keep(rows[i]),
    ensures
        0 <= k < rows.filter(keep).len(),
        rows.filter(keep)[k] == rows[i],
    decreases rows.len(),
{
    reveal(Seq::filter);
    let before = rows.drop_last();
    if i < before.len() {
        lemma_filter_keeps(before, keep, i)
    } else {
        before.filter(keep).len() as int
    }
}

} // verus!
