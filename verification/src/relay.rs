//! The relay, which marks events as delivered, and the two ends of a task.
use vstd::prelude::*;

use crate::error::{DbError, Result, StrunkError};
use crate::outbox::{
    change_refused, changed, copies_of, copy_rows, find_id, is_active, same_dedup, Change, Query,
};
use crate::ranking::first_ranked;
use crate::retry::{
    after_failure, attempts_in_range, failure_of, random_word, retry_delay_bounds, Failure,
};
use crate::store::Store;
use crate::subscriber::lists_id;
use crate::time::{Span, Timestamp};
use crate::types::{MessageStatus, OutboxRow};

verus! {

/// The store with a changed outbox.
pub open spec fn with_outbox(store: Store, after: Store) -> Store {
    Store { outbox: after.outbox, ..store }
}

/// Whether the row with an identifier was changed, if there is one that the change is for, and
/// nothing else.
pub open spec fn row_changed(before: Store, after: Store, id: i64, change: Change) -> bool {
    &&& after == with_outbox(before, after)
    &&& after.outbox@ == changed(before.outbox@, id, change)
}

/// Whether the row with an identifier was marked as worked off, if there is one, and nothing else
/// was done.
pub open spec fn completed(before: Store, after: Store, id: i64) -> bool {
    row_changed(before, after, id, Change::Deliver { at: before.now })
}

/// Marks a row as worked off.
pub fn mark_delivered(store: &mut Store, id: i64) -> (r: Result<()>)
    requires
        old(store).wf(),
    ensures
        final(store).wf(),
        r is Ok,
        completed(*old(store), *final(store), id),
{
    let at: Timestamp = store.now;
    store.change(id, Change::Deliver { at })
}

/// The change that a failure makes to the task's row, where the time of the next attempt can be
/// told.
pub open spec fn failure_change(now: Timestamp, failure: Failure) -> Option<Change> {
    match failure {
        Failure::Bury => Some(Change::Bury { at: now }),
        Failure::Retry { delay_secs } => if now + delay_secs * 1_000_000 <= i64::MAX {
            Some(Change::Reschedule { visible_at: (now + delay_secs * 1_000_000) as i64 })
        } else {
            None
        },
    }
}

/// Whether a failure was entered, or what was wrong. The time of the next attempt matters only where
/// there is a row for it.
pub open spec fn failure_entered(
    before: Store,
    after: Store,
    r: Result<()>,
    id: i64,
    failure: Failure,
) -> bool {
    &&& after == with_outbox(before, after)
    &&& match failure_change(before.now, failure) {
        None => {
            &&& after.outbox@ == before.outbox@
            &&& if lists_id(before.outbox@, id) {
                r == Result::<()>::Err(StrunkError::Database(DbError::OutOfRange))
            } else {
                r is Ok
            }
        },
        Some(change) => if change_refused(before.outbox@, id, change) {
            r == Result::<()>::Err(StrunkError::Database(DbError::UniqueViolation))
                && after.outbox@ == before.outbox@
        } else {
            r is Ok && after.outbox@ == changed(before.outbox@, id, change)
        },
    }
}

/// Enters that a task has failed, given a random word for the jitter.
pub fn mark_failed_with(
    store: &mut Store,
    id: i64,
    max_retries: i32,
    attempts: i32,
    draw: u64,
) -> (r: Result<()>)
    requires
        old(store).wf(),
        attempts_in_range(max_retries, attempts),
    ensures
        final(store).wf(),
        failure_entered(
            *old(store),
            *final(store),
            r,
            id,
            failure_of(max_retries, attempts, draw),
        ),
{
    let now: Timestamp = store.now;
    let failure: Failure = after_failure(max_retries, attempts, draw);
    match failure {
        Failure::Bury => store.change(id, Change::Bury { at: now }),
        Failure::Retry { delay_secs } => {
            let at: i128 = now as i128 + delay_secs as i128 * 1_000_000;
            if at > i64::MAX as i128 {
                return match find_id(&store.outbox, id) {
                    Some(_) => Err(StrunkError::Database(DbError::OutOfRange)),
                    None => Ok(()),
                };
            }
            proof {
                retry_delay_bounds(attempts, draw);
            }
            store.change(id, Change::Reschedule { visible_at: at as i64 })
        },
    }
}

/// Whether a failure was entered, with some jitter.
pub open spec fn failed(
    before: Store,
    after: Store,
    r: Result<()>,
    id: i64,
    max_retries: i32,
    attempts: i32,
) -> bool {
    exists|draw: u64| #[trigger]
        failure_entered(before, after, r, id, failure_of(max_retries, attempts, draw))
}

/// Enters that a task has failed.
pub fn mark_failed(store: &mut Store, id: i64, max_retries: i32, attempts: i32) -> (r: Result<()>)
    requires
        old(store).wf(),
        attempts_in_range(max_retries, attempts),
    ensures
        final(store).wf(),
        failed(*old(store), *final(store), r, id, max_retries, attempts),
{
    let draw: u64 = random_word();
    mark_failed_with(store, id, max_retries, attempts, draw)
}

/// The table after the rows at the given places have been delivered.
pub open spec fn delivered_at(
    rows: Seq<OutboxRow>,
    places: Seq<usize>,
    at: Timestamp,
) -> Seq<OutboxRow> {
    Seq::new(
        rows.len(),
        |i: int|
            if places.contains(i as usize) {
                Change::Deliver { at }.apply(rows[i])
            } else {
                rows[i]
            },
    )
}

/// Whether one list of places is the other in some order.
pub open spec fn rearranges(a: Seq<usize>, b: Seq<usize>) -> bool {
    &&& a.no_duplicates()
    &&& a.len() == b.len()
    &&& forall|i: usize| a.contains(i) <==> b.contains(i)
}

/// The relay.
#[derive(Debug)]
pub struct Relay {
    pub poll_interval: Span,
    pub batch_size: i64,
}

impl Relay {
    pub fn new(poll_interval: Span, batch_size: i64) -> (r: Relay)
        ensures
            r.poll_interval == poll_interval,
            r.batch_size == batch_size,
    {
        Relay { poll_interval, batch_size }
    }

    /// Marks the first events that are due as delivered and hands them out, in no particular
    /// order.
    pub fn poll_pending(&self, store: &mut Store) -> (r: Result<Vec<OutboxRow>>)
        requires
            old(store).wf(),
        ensures
            final(store).wf(),
            relay_answered(*self, *old(store), *final(store), r),
    {
        if self.batch_size < 0 {
            return Err(StrunkError::Database(DbError::NegativeLimit));
        }
        let now: Timestamp = store.now;
        let query: Query = Query::Undelivered { now };
        let places: Vec<usize> = query.select(&store.outbox, self.batch_size);
        let ghost before = store.outbox@;
        let n: usize = places.len();
        let mut k: usize = 0;
        assert(delivered_at(before, places@.take(0), now) =~= before);
        while k < n
            invariant
                n == places.len(),
                k <= n,
                now == old(store).now,
                before == old(store).outbox@,
                first_ranked(query.ranks(before), places@, self.batch_size as int),
                *store == with_outbox(*old(store), *store),
                store.outbox@ == delivered_at(before, places@.take(k as int), now),
            decreases n - k,
        {
            let place: usize = places[k];
            assert(place < before.len());
            store.outbox[place].status = MessageStatus::Delivered;
            store.outbox[place].delivered_at = Some(now);
            proof {
                let done = places@.take(k as int);
                let next = places@.take(k + 1);
                assert forall|i: usize| #[trigger]
                    next.contains(i) == (done.contains(i) || i == place) by {
                    if done.contains(i) {
                        let q = done.index_of(i);
                        assert(next[q] == i);
                    }
                    if i == place {
                        assert(next[k as int] == i);
                    }
                    if next.contains(i) {
                        let q = next.index_of(i);
                        if q < k {
                            assert(done[q] == i);
                        }
                    }
                }
                assert forall|i: int| 0 <= i < before.len() implies store.outbox@[i]
                    == delivered_at(before, next, now)[i] by {
                    assert(0 <= i < store.outbox.len());
                    assert(i as usize as int == i);
                    assert(next.contains(i as usize) == (done.contains(i as usize) || i as usize
                        == place));
                }
                assert(store.outbox@ =~= delivered_at(before, next, now));
            }
            k = k + 1;
        }
        assert(places@.take(n as int) =~= places@);
        let found: Vec<OutboxRow> = copy_rows(&store.outbox, &places);
        proof {
            let after = store.outbox@;
            assert forall|i: int| 0 <= i < after.len() implies {
                &&& (#[trigger] after[i]).id == before[i].id
                &&& after[i].dedup_key == before[i].dedup_key
                &&& is_active(after[i]) ==> is_active(before[i])
            } by {}
            assert forall|i: int, j: int|
                #![trigger after[i], after[j]]
                0 <= i < j < after.len() && is_active(after[i]) && is_active(
                    after[j],
                ) implies !same_dedup(after[i], after[j]) by {
                assert(!same_dedup(before[i], before[j]));
            }
            assert forall|i: int, j: int| 0 <= i < j < after.len() implies (#[trigger] after[i]).id
                != (#[trigger] after[j]).id by {
                assert(before[i].id != before[j].id);
            }
            assert(copies_of(found@, after, places@));
            assert(rearranges(places@, places@));
        }
        Ok(found)
    }
}

/// Whether a relay delivered and got the first events that were due, as many as it takes at a time.
/// It cannot take fewer than none.
pub open spec fn relay_answered(
    relay: Relay,
    before: Store,
    after: Store,
    r: Result<Vec<OutboxRow>>,
) -> bool {
    &&& after == with_outbox(before, after)
    &&& match r {
        Ok(found) => relay.batch_size >= 0 && relay_polled(
            before,
            after,
            relay.batch_size as int,
            found@,
        ),
        Err(e) => relay.batch_size < 0 && e == StrunkError::Database(DbError::NegativeLimit)
            && after.outbox@ == before.outbox@,
    }
}

/// Whether the first events that were due have been delivered and handed out.
pub open spec fn relay_polled(
    before: Store,
    after: Store,
    limit: int,
    found: Seq<OutboxRow>,
) -> bool {
    exists|places: Seq<usize>, order: Seq<usize>|
        {
            &&& first_ranked(
                Query::Undelivered { now: before.now }.ranks(before.outbox@),
                places,
                limit,
            )
            &&& after.outbox@ == delivered_at(before.outbox@, places, before.now)
            &&& #[trigger] rearranges(order, places)
            &&& copies_of(found, after.outbox@, order)
        }
}

} // verus!
