//! What an operator does: look through the rows that were given up, bring them back, count and
//! purge rows, and rewind subscribers.
use vstd::prelude::*;

use crate::error::{DbError, Result, StrunkError};
use crate::outbox::{
    active, answers, change_refused, copies_of, distinct_ids, is_active, run_query, Change, Query,
};
use crate::ranking::{first_ranked, rank_le};
use crate::reaper::lemma_remove_keeps_wf;
use crate::relay::row_changed;
use crate::stats::with_status;
use crate::store::Store;
use crate::subscriber::{lists_id, set_cursor, stands_in, with_cursor};
use crate::text::same_text;
use crate::time::Timestamp;
use crate::types::{MessageStatus, OutboxRow};

verus! {

/// Whether a row of a queue was given up.
pub open spec fn is_buried(row: OutboxRow, queue: Seq<char>) -> bool {
    row.status is Dead && row.key@ == queue
}

/// Whether `found` are copies of the first `limit` rows of a queue that were given up, the youngest
/// first. Of two of the same age either may come first.
pub open spec fn buried_listed(
    rows: Seq<OutboxRow>,
    queue: Seq<char>,
    limit: int,
    found: Seq<OutboxRow>,
) -> bool {
    &&& found.len() <= limit
    &&& forall|k: int|
        0 <= k < found.len() ==> stands_in(#[trigger] found[k], rows) && is_buried(found[k], queue)
    &&& forall|j: int, k: int|
        0 <= j < k < found.len() ==> (#[trigger] found[j]).created_at >= (
        #[trigger] found[k]).created_at && found[j].id != found[k].id
    &&& forall|i: int|
        0 <= i < rows.len() && is_buried(#[trigger] rows[i], queue) ==> lists_id(found, rows[i].id)
            || (found.len() == limit && forall|k: int|
            0 <= k < found.len() ==> (#[trigger] found[k]).created_at >= rows[i].created_at)
}

/// Whether the first rows of a queue that were given up were found. There cannot be fewer than none.
pub open spec fn letters_found(
    store: Store,
    queue: Seq<char>,
    limit: i64,
    r: Result<Vec<OutboxRow>>,
) -> bool {
    match r {
        Ok(found) => limit >= 0 && buried_listed(store.outbox@, queue, limit as int, found@),
        Err(e) => limit < 0 && e == StrunkError::Database(DbError::NegativeLimit),
    }
}

/// The rows of a queue that were given up, the youngest first.
pub fn dead_letters(store: &Store, queue: &str, limit: i64) -> (r: Result<Vec<OutboxRow>>)
    requires
        store.wf(),
    ensures
        letters_found(*store, queue@, limit, r),
{
    let queue_text: String = queue.to_owned();
    let query: Query = Query::Buried { queue: queue_text };
    match run_query(&store.outbox, &query, limit) {
        Ok(found) => {
            proof {
                assert(store.outbox.len() == store.outbox@.len());
                lemma_buried(store.outbox@, queue_text, limit as int, found@);
            }
            Ok(found)
        },
        Err(e) => Err(StrunkError::Database(e)),
    }
}

proof fn lemma_buried(rows: Seq<OutboxRow>, queue: String, limit: int, found: Seq<OutboxRow>)
    requires
        distinct_ids(rows),
        rows.len() <= usize::MAX,
        answers(Query::Buried { queue }, rows, limit, found),
    ensures
        buried_listed(rows, queue@, limit, found),
{
    let ranks = Query::Buried { queue }.ranks(rows);
    let places = choose|places: Seq<usize>|
        first_ranked(ranks, places, limit) && #[trigger] copies_of(found, rows, places);
    assert forall|k: int| 0 <= k < found.len() implies stands_in(#[trigger] found[k], rows)
        && is_buried(found[k], queue@) by {
        assert(found[k].same(rows[places[k] as int]));
        assert(ranks[places[k] as int] is Some);
    }
    assert forall|j: int, k: int| 0 <= j < k < found.len() implies (#[trigger] found[j]).created_at
        >= (#[trigger] found[k]).created_at && found[j].id != found[k].id by {
        let a = places[j] as int;
        let b = places[k] as int;
        assert(found[j].same(rows[a]) && found[k].same(rows[b]));
        assert(rank_le(ranks[places[j] as int]->0, ranks[places[k] as int]->0));
        assert(places[j] != places[k]);
        if a < b {
            assert(rows[a].id != rows[b].id);
        } else {
            assert(rows[b].id != rows[a].id);
        }
    }
    assert forall|i: int| 0 <= i < rows.len() && is_buried(#[trigger] rows[i], queue@) implies lists_id(
        found,
        rows[i].id,
    ) || (found.len() == limit && forall|k: int|
        0 <= k < found.len() ==> (#[trigger] found[k]).created_at >= rows[i].created_at) by {
        assert(ranks[i] is Some);
        if places.contains(i as usize) {
            let k = places.index_of(i as usize);
            assert(found[k].same(rows[places[k] as int]));
            assert(found[k].id == rows[i].id);
        } else {
            assert forall|k: int| 0 <= k < found.len() implies (#[trigger] found[k]).created_at
                >= rows[i].created_at by {
                assert(found[k].same(rows[places[k] as int]));
                assert(rank_le(ranks[places[k] as int]->0, ranks[i]->0));
            }
        }
    }
}

/// Whether a row that was given up was brought back, or what was wrong.
pub open spec fn revived(before: Store, after: Store, r: Result<()>, task_id: i64) -> bool {
    let change = Change::Revive { visible_at: before.now };
    if change_refused(before.outbox@, task_id, change) {
        r == Result::<()>::Err(StrunkError::Database(DbError::UniqueViolation)) && after.outbox@
            == before.outbox@ && after == (Store { outbox: after.outbox, ..before })
    } else {
        r is Ok && row_changed(before, after, task_id, change)
    }
}

/// Brings back a row that was given up: it is pending again, as if it had never been tried.
pub fn retry_dead(store: &mut Store, task_id: i64) -> (r: Result<()>)
    requires
        old(store).wf(),
    ensures
        final(store).wf(),
        revived(*old(store), *final(store), r, task_id),
{
    let visible_at: Timestamp = store.now;
    store.change(task_id, Change::Revive { visible_at })
}

/// Whether the rows were brought back one after the other, the stores being those between.
pub open spec fn revived_in_turn(stores: Seq<Store>, rows: Seq<OutboxRow>) -> bool {
    &&& stores.len() == rows.len() + 1
    &&& forall|i: int|
        0 <= i < rows.len() ==> revived(stores[i], stores[i + 1], Ok(()), (#[trigger] rows[i]).id)
}

/// Whether all rows of a queue that were given up, ten thousand of them at most, were brought back,
/// or those before the first that was refused.
pub open spec fn all_revived(before: Store, after: Store, r: Result<usize>, queue: Seq<char>) -> bool {
    exists|found: Seq<OutboxRow>, stores: Seq<Store>, count: int|
        {
            &&& buried_listed(before.outbox@, queue, 10_000, found)
            &&& 0 <= count <= found.len()
            &&& #[trigger] revived_in_turn(stores, found.take(count))
            &&& stores[0] == before
            &&& match r {
                Ok(revived_count) => count == found.len() && revived_count == count
                    && stores.last() == after,
                Err(e) => count < found.len() && revived(
                    stores.last(),
                    after,
                    Err(e),
                    found[count].id,
                ),
            }
        }
}

/// Brings back all rows of a queue that were given up, ten thousand of them at most. Hands out how
/// many.
pub fn retry_all(store: &mut Store, queue: &str) -> (r: Result<usize>)
    requires
        old(store).wf(),
    ensures
        final(store).wf(),
        all_revived(*old(store), *final(store), r, queue@),
{
    let found: Vec<OutboxRow> = match dead_letters(store, queue, 10_000) {
        Ok(found) => found,
        Err(e) => return Err(e),
    };
    let n: usize = found.len();
    let ghost mut stores: Seq<Store> = seq![*store];
    let mut i: usize = 0;
    assert(found@.take(0) =~= Seq::<OutboxRow>::empty());
    while i < n
        invariant
            n == found.len(),
            i <= n,
            store.wf(),
            buried_listed(old(store).outbox@, queue@, 10_000, found@),
            revived_in_turn(stores, found@.take(i as int)),
            stores[0] == *old(store),
            stores.last() == *store,
        decreases n - i,
    {
        let id: i64 = found[i].id;
        let ghost before = *store;
        if let Err(e) = retry_dead(store, id) {
            assert(revived_in_turn(stores, found@.take(i as int)));
            return Err(e);
        }
        proof {
            let done = found@.take(i as int);
            let next = found@.take(i + 1);
            let longer = stores.push(*store);
            assert(next =~= done.push(found@[i as int]));
            assert forall|k: int| 0 <= k < next.len() implies revived(
                longer[k],
                longer[k + 1],
                Ok(()),
                (#[trigger] next[k]).id,
            ) by {
                if k < i {
                    assert(next[k] == done[k]);
                }
            }
            stores = longer;
        }
        i = i + 1;
    }
    assert(revived_in_turn(stores, found@.take(n as int)));
    Ok(n)
}

/// The rows of a key that are still to be worked off.
pub open spec fn active_of(rows: Seq<OutboxRow>, queue: Seq<char>) -> Seq<OutboxRow> {
    rows.filter(|row: OutboxRow| row.key@ == queue && is_active(row))
}

/// Whether the rows of a queue that are still to be worked off were counted.
pub open spec fn pending_counted(store: Store, queue: Seq<char>, r: Result<i64>) -> bool {
    r matches Ok(count) && count == active_of(store.outbox@, queue).len()
}

/// How many rows of a queue are still to be worked off.
pub fn pending_count(store: &Store, queue: &str) -> (r: Result<i64>)
    requires
        store.wf(),
    ensures
        pending_counted(*store, queue@, r),
{
    let ghost rows = store.outbox@;
    proof {
        crate::store::rows_are_countable(rows, store.next_id);
        reveal(Seq::filter);
        assert(rows.take(0) =~= Seq::<OutboxRow>::empty());
    }
    let n: usize = store.outbox.len();
    let mut count: i64 = 0;
    let mut i: usize = 0;
    while i < n
        invariant
            n == store.outbox.len(),
            i <= n < i64::MAX,
            rows == store.outbox@,
            count <= i,
            count == active_of(rows.take(i as int), queue@).len(),
        decreases n - i,
    {
        let row: &OutboxRow = &store.outbox[i];
        proof {
            reveal(Seq::filter);
            assert(rows.take(i + 1).drop_last() =~= rows.take(i as int));
            assert(rows.take(i + 1).last() == rows[i as int]);
        }
        if same_text(row.key.as_str(), queue) && active(row) {
            count = count + 1;
        }
        i = i + 1;
    }
    assert(rows.take(n as int) =~= rows);
    Ok(count)
}

/// Where a key belongs to tasks alone, the pending and the claimed ones are those that are still to
/// be worked off.
pub proof fn pending_count_adds_up(rows: Seq<OutboxRow>, queue: Seq<char>)
    requires
        forall|i: int|
            0 <= i < rows.len() && (#[trigger] rows[i]).key@ == queue ==> rows[i].kind is Task,
    ensures
        active_of(rows, queue).len() == with_status(
            rows,
            Some(queue),
            MessageStatus::Pending,
        ).len() + with_status(rows, Some(queue), MessageStatus::Claimed).len(),
    decreases rows.len(),
{
    reveal(Seq::filter);
    if rows.len() > 0 {
        let before = rows.drop_last();
        assert forall|i: int|
            0 <= i < before.len() && (#[trigger] before[i]).key@ == queue implies before[i].kind is Task by {
            assert(before[i] == rows[i]);
        }
        pending_count_adds_up(before, queue);
        assert(rows.last() == rows[rows.len() - 1]);
    }
}

/// Moves a subscriber's cursor, so that it sees the events behind it again.
pub fn replay_subscriber(store: &mut Store, subscriber_id: &str, from_id: i64) -> (r: Result<()>)
    requires
        old(store).wf(),
    ensures
        final(store).wf(),
        r is Ok,
        *final(store) == (Store { subscribers: final(store).subscribers, ..*old(store) }),
        final(store).subscribers@ == with_cursor(old(store).subscribers@, subscriber_id@, from_id),
{
    set_cursor(store, subscriber_id, from_id);
    Ok(())
}

/// Moves a subscriber's cursor before all events.
pub fn reset_subscriber(store: &mut Store, subscriber_id: &str) -> (r: Result<()>)
    requires
        old(store).wf(),
    ensures
        final(store).wf(),
        r is Ok,
        *final(store) == (Store { subscribers: final(store).subscribers, ..*old(store) }),
        final(store).subscribers@ == with_cursor(old(store).subscribers@, subscriber_id@, 0),
{
    replay_subscriber(store, subscriber_id, 0)
}

/// The rows without those of a key and a status.
pub open spec fn purged(
    rows: Seq<OutboxRow>,
    queue: Seq<char>,
    status: Seq<char>,
) -> Seq<OutboxRow> {
    rows.filter(unpurged(queue, status))
}

/// The rows that do not have a key and a status.
pub open spec fn unpurged(queue: Seq<char>, status: Seq<char>) -> spec_fn(OutboxRow) -> bool {
    |row: OutboxRow| !(row.key@ == queue && row.status.name() == status)
}

/// Whether the rows of a key and a status were deleted and counted, and nothing else was done.
pub open spec fn purging_done(
    before: Store,
    after: Store,
    r: Result<u64>,
    queue: Seq<char>,
    status: Seq<char>,
) -> bool {
    &&& after == (Store { outbox: after.outbox, ..before })
    &&& after.outbox@ == purged(before.outbox@, queue, status)
    &&& r == Result::<u64>::Ok((before.outbox@.len() - after.outbox@.len()) as u64)
}

/// Deletes the rows of a key and a status, named as in the table. Hands out how many.
pub fn purge(store: &mut Store, queue: &str, status: &str) -> (r: Result<u64>)
    requires
        old(store).wf(),
    ensures
        final(store).wf(),
        purging_done(*old(store), *final(store), r, queue@, status@),
{
    let mut deleted: u64 = 0;
    let mut i: usize = 0;
    let ghost keep = unpurged(queue@, status@);
    assert(store.outbox.len() == store.outbox@.len());
    while i < store.outbox.len()
        invariant
            store.wf(),
            *store == (Store { outbox: store.outbox, ..*old(store) }),
            i <= store.outbox.len(),
            deleted + store.outbox@.len() == old(store).outbox@.len(),
            old(store).outbox@.len() <= usize::MAX,
            keep == unpurged(queue@, status@),
            store.outbox@.filter(keep) == old(store).outbox@.filter(keep),
            forall|j: int| 0 <= j < i ==> keep(#[trigger] store.outbox@[j]),
        decreases store.outbox@.len() - i,
    {
        if same_text(store.outbox[i].key.as_str(), queue) && same_text(
            store.outbox[i].status.text(),
            status,
        ) {
            let ghost before = store.outbox@;
            let _: OutboxRow = store.outbox.remove(i);
            proof {
                lemma_remove_keeps_wf(before, i as int, store.next_id);
                crate::reaper::lemma_remove_left_out(before, i as int, keep);
            }
            deleted = deleted + 1;
        } else {
            i = i + 1;
        }
    }
    proof {
        crate::reaper::lemma_filter_all(store.outbox@, keep);
    }
    Ok(deleted)
}

} // verus!
