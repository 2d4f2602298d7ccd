//! What the reaper deletes, what an operator brings back, purges and counts, and when all is well.
use vstd::prelude::*;

use crate::admin::{
    active_of, all_revived, buried_listed, letters_found, pending_counted, purged, purging_done,
    revived, revived_in_turn,
};
use crate::error::Result;
use crate::health::{age_secs, HealthReport};
use crate::reaper::{reaped, Reaper};
use crate::stats::{is_oldest_pending, with_status, OverallStats, QueueStats};
use crate::store::Store;
use crate::time::{Span, Timestamp};
use crate::types::{MessageStatus, OutboxRow};

verus! {

/// After a round of the reaper no row of any kind is left that was delivered, or given up, longer ago
/// than such rows are kept.
pub proof fn reaper_leaves_nothing_expired(
    reaper: Reaper,
    before: Store,
    after: Store,
    r: Result<u64>,
    i: int,
)
    requires
        reaper.batch_size > 0,
        reaped(reaper, before, after, r),
        0 <= i < after.outbox@.len(),
        after.outbox@[i].delivered_at is Some,
    ensures
        after.outbox@[i].status is Delivered ==> after.outbox@[i].delivered_at->0
            + reaper.retention_delivered.micros >= before.now,
        after.outbox@[i].status is Dead ==> after.outbox@[i].delivered_at->0
            + reaper.retention_dead.micros >= before.now,
{
    let keep = |row: OutboxRow| !reaper.expired(row, before.now);
    let j = crate::reaper::lemma_filtered_from(before.outbox@, keep, i);
}

/// The reaper deletes no other row: one that is neither delivered nor dead, that has no time at which
/// it became so, or that became so no longer ago than such rows are kept, is still there, unchanged.
/// No row is there that was not before.
pub proof fn reaper_deletes_nothing_else(
    reaper: Reaper,
    before: Store,
    after: Store,
    r: Result<u64>,
    i: int,
)
    requires
        reaped(reaper, before, after, r),
        0 <= i < before.outbox@.len(),
        ({
            let row = before.outbox@[i];
            ||| !(row.status is Delivered) && !(row.status is Dead)
            ||| row.delivered_at is None
            ||| row.status is Delivered && row.delivered_at->0 + reaper.retention_delivered.micros
                >= before.now
            ||| row.status is Dead && row.delivered_at->0 + reaper.retention_dead.micros
                >= before.now
        }),
    ensures
        exists|k: int|
            0 <= k < after.outbox@.len() && #[trigger] after.outbox@[k] == before.outbox@[i],
        forall|k: int|
            0 <= k < after.outbox@.len() ==> before.outbox@.contains(#[trigger] after.outbox@[k]),
{
    let keep = |row: OutboxRow| !reaper.expired(row, before.now);
    if reaper.batch_size >= 0 {
        let k = crate::reaper::lemma_filter_keeps(before.outbox@, keep, i);
        assert(after.outbox@[k] == before.outbox@[i]);
        assert forall|k: int| 0 <= k < after.outbox@.len() implies before.outbox@.contains(
            #[trigger] after.outbox@[k],
        ) by {
            let j = crate::reaper::lemma_filtered_from(before.outbox@, keep, k);
            assert(before.outbox@[j] == after.outbox@[k]);
        }
    } else {
        assert(after.outbox@[i] == before.outbox@[i]);
    }
}

/// A round of the reaper hands out how many rows are gone. Of the inbox it keeps exactly the entries
/// that are no older than delivered rows are kept, and it touches no other table.
pub proof fn reaper_reports_and_cleans_the_inbox(
    reaper: Reaper,
    before: Store,
    after: Store,
    r: Result<u64>,
    entry: (Seq<char>, i64),
)
    requires
        before.wf(),
        reaped(reaper, before, after, r),
    ensures
        r is Ok <==> reaper.batch_size >= 0,
        r is Err ==> after == before,
        r matches Ok(deleted) ==> deleted + after.outbox@.len() == before.outbox@.len(),
        r is Ok ==> (after.inbox@.contains_key(entry) <==> before.inbox@.contains_key(entry)
            && before.inbox@[entry] + reaper.retention_delivered.micros >= before.now),
        after.inbox@.contains_key(entry) ==> after.inbox@[entry] == before.inbox@[entry],
        after.results == before.results && after.snapshots == before.snapshots
            && after.subscribers == before.subscribers && after.schedules == before.schedules
            && after.schemas == before.schemas,
{
    let keep = |row: OutboxRow| !reaper.expired(row, before.now);
    lemma_filter_no_longer(before.outbox@, keep);
    assert(before.outbox.len() == before.outbox@.len());
}

proof fn lemma_filter_no_longer(rows: Seq<OutboxRow>, keep: spec_fn(OutboxRow) -> bool)
    ensures
        rows.filter(keep).len() <= rows.len(),
    decreases rows.len(),
{
    reveal(Seq::filter);
    if rows.len() > 0 {
        lemma_filter_no_longer(rows.drop_last(), keep);
    }
}

/// What an operator is shown of the rows that were given up: rows of the queue that are dead, each as
/// it stands in the table, the youngest first, none twice. As long as there is room, all of them.
pub proof fn dead_letters_are_shown_as_they_are(
    store: Store,
    queue: Seq<char>,
    limit: i64,
    r: Result<Vec<OutboxRow>>,
    i: int,
    k: int,
)
    requires
        letters_found(store, queue, limit, r),
    ensures
        r is Err <==> limit < 0,
        r matches Ok(found) ==> {
            &&& found@.len() <= limit
            &&& (0 <= k < found@.len() ==> {
                &&& found@[k].status is Dead
                &&& found@[k].key@ == queue
                &&& exists|j: int|
                    {
                        &&& 0 <= j < store.outbox@.len()
                        &&& (#[trigger] store.outbox@[j]).id == found@[k].id
                        &&& store.outbox@[j].kind == found@[k].kind
                        &&& store.outbox@[j].status is Dead
                        &&& store.outbox@[j].key@ == queue
                        &&& store.outbox@[j].payload@ == found@[k].payload@
                        &&& store.outbox@[j].metadata@ == found@[k].metadata@
                        &&& store.outbox@[j].attempts == found@[k].attempts
                        &&& store.outbox@[j].max_retries == found@[k].max_retries
                        &&& store.outbox@[j].priority == found@[k].priority
                        &&& store.outbox@[j].progress == found@[k].progress
                        &&& store.outbox@[j].visible_at == found@[k].visible_at
                        &&& store.outbox@[j].created_at == found@[k].created_at
                        &&& store.outbox@[j].delivered_at == found@[k].delivered_at
                    }
            })
            &&& (0 <= i < k < found@.len() ==> found@[i].created_at >= found@[k].created_at
                && found@[i].id != found@[k].id)
            &&& (0 <= i < store.outbox@.len() && store.outbox@[i].status is Dead
                && store.outbox@[i].key@ == queue ==> {
                ||| exists|j: int|
                    0 <= j < found@.len() && (#[trigger] found@[j]).id == store.outbox@[i].id
                ||| {
                    &&& found@.len() == limit
                    &&& (0 <= k < found@.len() ==> found@[k].created_at
                        >= store.outbox@[i].created_at)
                }
            })
        },
{
    let rows = store.outbox@;
    if let Ok(letters) = r {
        let found = letters@;
        if 0 <= k < found.len() {
            assert(crate::subscriber::stands_in(found[k], rows));
            let j = choose|j: int| 0 <= j < rows.len() && found[k].same(#[trigger] rows[j]);
            assert(rows[j].id == found[k].id);
        }
        if 0 <= i < k < found.len() {
            assert(found[i].created_at >= found[k].created_at);
        }
        if 0 <= i < rows.len() && rows[i].status is Dead && rows[i].key@ == queue {
            assert(crate::admin::is_buried(rows[i], queue));
        }
    }
}

/// Reviving all dead rows of a queue, fewer than ten thousand, leaves none of them dead: each is
/// pending from now on, without attempts. All other rows stay as they are. What is handed out is how
/// many there were.
pub proof fn all_dead_rows_come_back(
    before: Store,
    after: Store,
    count: usize,
    queue: Seq<char>,
    i: int,
)
    requires
        before.wf(),
        all_revived(before, after, Ok(count), queue),
        count < 10_000,
        0 <= i < before.outbox@.len(),
    ensures
        after.outbox@.len() == before.outbox@.len(),
        before.outbox@[i].status is Dead && before.outbox@[i].key@ == queue ==> {
            &&& after.outbox@[i].status is Pending
            &&& after.outbox@[i].attempts == 0
            &&& after.outbox@[i].visible_at == before.now
            &&& after.outbox@[i] == (OutboxRow {
                status: after.outbox@[i].status,
                attempts: after.outbox@[i].attempts,
                visible_at: after.outbox@[i].visible_at,
                ..before.outbox@[i]
            })
        },
        !(before.outbox@[i].status is Dead) || before.outbox@[i].key@ != queue ==> after.outbox@[i]
            == before.outbox@[i],
{
    let (found, stores, n) = choose|found: Seq<OutboxRow>, stores: Seq<Store>, n: int|
        {
            &&& buried_listed(before.outbox@, queue, 10_000, found)
            &&& 0 <= n <= found.len()
            &&& #[trigger] revived_in_turn(stores, found.take(n))
            &&& stores[0] == before
            &&& n == found.len() && count == n && stores.last() == after
        };
    assert(found.take(n) =~= found);
    lemma_revived_in_turn(stores, found, found.len() as int, i);
    assert(stores.last() == stores[found.len() as int]);
    let row = before.outbox@[i];
    if row.status is Dead && row.key@ == queue {
        assert(crate::admin::is_buried(row, queue));
        let k = choose|k: int| 0 <= k < found.len() && (#[trigger] found[k]).id == row.id;
        assert(found[k].id == row.id);
    } else {
        assert forall|k: int| 0 <= k < found.len() implies (#[trigger] found[k]).id != row.id by {
            if found[k].id == row.id {
                assert(crate::subscriber::stands_in(found[k], before.outbox@));
                let j = choose|j: int|
                    0 <= j < before.outbox@.len() && found[k].same(#[trigger] before.outbox@[j]);
                if j < i {
                    assert(before.outbox@[j].id != before.outbox@[i].id);
                } else if i < j {
                    assert(before.outbox@[i].id != before.outbox@[j].id);
                }
            }
        }
    }
}

proof fn lemma_revived_in_turn(stores: Seq<Store>, found: Seq<OutboxRow>, n: int, i: int)
    requires
        revived_in_turn(stores, found),
        0 <= n <= found.len(),
        0 <= i < stores[0].outbox@.len(),
    ensures
        stores[n].now == stores[0].now,
        stores[n].outbox@.len() == stores[0].outbox@.len(),
        ({
            let row = stores[0].outbox@[i];
            let listed = exists|k: int| 0 <= k < n && (#[trigger] found[k]).id == row.id;
            if listed && row.status is Dead {
                stores[n].outbox@[i] == (OutboxRow {
                    status: MessageStatus::Pending,
                    attempts: 0,
                    visible_at: stores[0].now,
                    ..row
                })
            } else {
                stores[n].outbox@[i] == row
            }
        }),
    decreases n,
{
    if n > 0 {
        lemma_revived_in_turn(stores, found, n - 1, i);
        assert(revived(stores[n - 1], stores[n - 1 + 1], Ok(()), found[n - 1].id));
        let row = stores[0].outbox@[i];
        let listed = exists|k: int| 0 <= k < n - 1 && (#[trigger] found[k]).id == row.id;
        if listed {
            let k = choose|k: int| 0 <= k < n - 1 && (#[trigger] found[k]).id == row.id;
            assert(0 <= k < n && found[k].id == row.id);
        }
        if found[n - 1].id == row.id {
            assert(exists|k: int| 0 <= k < n && (#[trigger] found[k]).id == row.id);
        }
    }
}

/// A purge deletes the rows of a key and a status, whatever their kind and their age, and no others,
/// and hands out how many they were.
pub proof fn purge_deletes_key_and_status(
    before: Store,
    after: Store,
    r: Result<u64>,
    queue: Seq<char>,
    status: MessageStatus,
    i: int,
    k: int,
)
    requires
        before.wf(),
        purging_done(before, after, r, queue, status.name()),
    ensures
        r is Ok && r->Ok_0 + after.outbox@.len() == before.outbox@.len(),
        0 <= i < before.outbox@.len() && (before.outbox@[i].key@ != queue
            || before.outbox@[i].status != status) ==> after.outbox@.contains(before.outbox@[i]),
        0 <= k < after.outbox@.len() ==> before.outbox@.contains(after.outbox@[k]) && (
        after.outbox@[k].key@ != queue || after.outbox@[k].status != status),
        after.results == before.results && after.inbox == before.inbox && after.snapshots
            == before.snapshots && after.subscribers == before.subscribers && after.schedules
            == before.schedules && after.schemas == before.schemas,
{
    let rows = before.outbox@;
    let keep = crate::admin::unpurged(queue, status.name());
    let left = purged(rows, queue, status.name());
    lemma_filter_no_longer(rows, keep);
    assert(before.outbox.len() == rows.len());
    if 0 <= i < rows.len() && (rows[i].key@ != queue || rows[i].status != status) {
        statuses_have_names(rows[i].status, status);
        let j = crate::reaper::lemma_filter_keeps(rows, keep, i);
        assert(left[j] == rows[i]);
    }
    if 0 <= k < left.len() {
        let j = crate::reaper::lemma_filtered_from(rows, keep, k);
        assert(rows[j] == left[k]);
    }
}

/// A purge under a name that no status has deletes nothing.
pub proof fn purge_of_an_unknown_status_deletes_nothing(
    before: Store,
    after: Store,
    r: Result<u64>,
    queue: Seq<char>,
    name: Seq<char>,
)
    requires
        purging_done(before, after, r, queue, name),
        name != "pending"@,
        name != "claimed"@,
        name != "delivered"@,
        name != "failed"@,
        name != "dead"@,
    ensures
        after.outbox@ == before.outbox@,
        r == Result::<u64>::Ok(0),
{
    let rows = before.outbox@;
    let keep = crate::admin::unpurged(queue, name);
    assert forall|i: int| 0 <= i < rows.len() implies keep(#[trigger] rows[i]) by {}
    crate::reaper::lemma_filter_all(rows, keep);
}

/// Every status has a name of its own.
pub proof fn statuses_have_names(a: MessageStatus, b: MessageStatus)
    ensures
        a.name() == b.name() <==> a == b,
        a is Pending ==> a.name() == "pending"@,
        a is Claimed ==> a.name() == "claimed"@,
        a is Delivered ==> a.name() == "delivered"@,
        a is Failed ==> a.name() == "failed"@,
        a is Dead ==> a.name() == "dead"@,
{
    reveal_strlit("pending");
    reveal_strlit("claimed");
    reveal_strlit("delivered");
    reveal_strlit("failed");
    reveal_strlit("dead");
    assert("pending"@[0] == 'p' && "claimed"@[0] == 'c' && "delivered"@[0] == 'd');
    assert("failed"@[0] == 'f' && "dead"@[0] == 'd');
    assert("delivered"@.len() == 9 && "dead"@.len() == 4);
}

/// The figures of a queue count its tasks: a row that is added is counted once, under its status, if
/// it is a task of the queue, and not at all otherwise. Those of an empty table are all zero.
pub proof fn queue_figures_count_tasks(
    rows: Seq<OutboxRow>,
    row: OutboxRow,
    queue: Seq<char>,
    stats: QueueStats,
    more: QueueStats,
)
    requires
        stats.shows(rows, queue),
        more.shows(rows.push(row), queue),
    ensures
        ({
            let ours = row.kind is Task && row.key@ == queue;
            &&& more.queue@ == queue
            &&& more.pending - stats.pending == if ours && row.status is Pending {
                1int
            } else {
                0
            }
            &&& more.claimed - stats.claimed == if ours && row.status is Claimed {
                1int
            } else {
                0
            }
            &&& more.delivered - stats.delivered == if ours && row.status is Delivered {
                1int
            } else {
                0
            }
            &&& more.dead - stats.dead == if ours && row.status is Dead {
                1int
            } else {
                0
            }
        }),
        rows.len() == 0 ==> stats.pending == 0 && stats.claimed == 0 && stats.delivered == 0
            && stats.dead == 0 && stats.oldest_pending is None,
{
    reveal(Seq::filter);
    assert(rows.push(row).drop_last() =~= rows);
}

/// The oldest pending time of a queue is that at which the oldest of its pending tasks was written.
pub proof fn oldest_pending_is_the_oldest(
    rows: Seq<OutboxRow>,
    queue: Seq<char>,
    stats: QueueStats,
    i: int,
)
    requires
        stats.shows(rows, queue),
    ensures
        0 <= i < rows.len() && rows[i].kind is Task && rows[i].key@ == queue && rows[i].status is Pending
            ==> stats.oldest_pending is Some && stats.oldest_pending->0 <= rows[i].created_at,
        stats.oldest_pending matches Some(at) ==> exists|j: int|
            {
                &&& 0 <= j < rows.len()
                &&& (#[trigger] rows[j]).kind is Task
                &&& rows[j].key@ == queue
                &&& rows[j].status is Pending
                &&& rows[j].created_at == at
            },
{
    if 0 <= i < rows.len() {
        lemma_oldest(rows, Some(queue), stats.oldest_pending, i);
    }
    if let Some(at) = stats.oldest_pending {
        let j = lemma_oldest_stands(rows, Some(queue), at);
        assert(rows[j].kind is Task);
    }
}

proof fn lemma_oldest(
    rows: Seq<OutboxRow>,
    queue: Option<Seq<char>>,
    oldest: Option<Timestamp>,
    i: int,
)
    requires
        is_oldest_pending(rows, queue, oldest),
        0 <= i < rows.len(),
    ensures
        crate::stats::in_scope(rows[i], queue) && rows[i].status is Pending ==> oldest is Some
            && oldest->0 <= rows[i].created_at,
{
    if crate::stats::in_scope(rows[i], queue) && rows[i].status is Pending {
        let keep = |row: OutboxRow|
            crate::stats::in_scope(row, queue) && row.status == MessageStatus::Pending;
        let k = crate::reaper::lemma_filter_keeps(rows, keep, i);
        assert(with_status(rows, queue, MessageStatus::Pending)[k] == rows[i]);
    }
}

proof fn lemma_oldest_stands(
    rows: Seq<OutboxRow>,
    queue: Option<Seq<char>>,
    at: Timestamp,
) -> (j: int)
    requires
        is_oldest_pending(rows, queue, Some(at)),
    ensures
        0 <= j < rows.len(),
        crate::stats::in_scope(rows[j], queue),
        rows[j].status is Pending,
        rows[j].created_at == at,
{
    let keep = |row: OutboxRow|
        crate::stats::in_scope(row, queue) && row.status == MessageStatus::Pending;
    let pending = with_status(rows, queue, MessageStatus::Pending);
    let k = choose|k: int| 0 <= k < pending.len() && (#[trigger] pending[k]).created_at == at;
    crate::reaper::lemma_filtered_from(rows, keep, k)
}

/// The figures of the outbox count all rows, of whatever kind and key: a row that is added is counted
/// once under its status, and once in the size of the table.
pub proof fn overall_figures_count_rows(
    rows: Seq<OutboxRow>,
    row: OutboxRow,
    stats: OverallStats,
    more: OverallStats,
)
    requires
        stats.shows(rows),
        more.shows(rows.push(row)),
    ensures
        more.total_pending - stats.total_pending == if row.status is Pending {
            1int
        } else {
            0
        },
        more.total_claimed - stats.total_claimed == if row.status is Claimed {
            1int
        } else {
            0
        },
        more.total_delivered - stats.total_delivered == if row.status is Delivered {
            1int
        } else {
            0
        },
        more.total_dead - stats.total_dead == if row.status is Dead {
            1int
        } else {
            0
        },
        more.table_size == stats.table_size + 1,
        rows.len() == 0 ==> stats.total_pending == 0 && stats.total_claimed == 0
            && stats.total_delivered == 0 && stats.total_dead == 0 && stats.table_size == 0,
{
    reveal(Seq::filter);
    assert(rows.push(row).drop_last() =~= rows);
}

/// The count of a queue's rows that are still to be worked off goes up by one with every row of that
/// key that is pending or claimed, and with no other. That of an empty table is zero.
pub proof fn pending_count_counts_rows(
    before: Store,
    after: Store,
    row: OutboxRow,
    queue: Seq<char>,
    count: Result<i64>,
    more: Result<i64>,
)
    requires
        after.outbox@ == before.outbox@.push(row),
        pending_counted(before, queue, count),
        pending_counted(after, queue, more),
    ensures
        count is Ok && more is Ok,
        more->Ok_0 - count->Ok_0 == if row.key@ == queue && (row.status is Pending
            || row.status is Claimed) {
            1int
        } else {
            0
        },
        before.outbox@.len() == 0 ==> count->Ok_0 == 0,
{
    reveal(Seq::filter);
    assert(after.outbox@.drop_last() =~= before.outbox@);
}

/// All is well exactly when every pending row, of whatever kind, is younger than that, in whole
/// seconds. The age that is shown is that of the oldest, and the count that of all pending rows.
pub proof fn health_goes_by_the_oldest_pending_row(
    report: HealthReport,
    store: Store,
    max_pending_age: Span,
    overall: OverallStats,
    i: int,
)
    requires
        report.shows(store, max_pending_age),
        overall.shows(store.outbox@),
        forall|j: int|
            0 <= j < store.outbox@.len() ==> (#[trigger] store.outbox@[j]).created_at <= store.now,
    ensures
        report.pending == overall.total_pending,
        report.healthy <==> forall|j: int|
            0 <= j < store.outbox@.len() && (#[trigger] store.outbox@[j]).status is Pending ==> (
            store.now - store.outbox@[j].created_at) / 1_000_000 < max_pending_age.micros
                / 1_000_000,
        0 <= i < store.outbox@.len() && store.outbox@[i].status is Pending
            ==> report.oldest_pending_age_secs is Some && (store.now - store.outbox@[i].created_at)
            / 1_000_000 <= report.oldest_pending_age_secs->0,
        report.oldest_pending_age_secs matches Some(age) ==> exists|j: int|
            0 <= j < store.outbox@.len() && (#[trigger] store.outbox@[j]).status is Pending && age
                == (store.now - store.outbox@[j].created_at) / 1_000_000,
{
    let rows = store.outbox@;
    let oldest = choose|oldest: Option<Timestamp>|
        {
            &&& #[trigger] is_oldest_pending(rows, None, oldest)
            &&& match oldest {
                Some(at) => {
                    &&& report.oldest_pending_age_secs == Some(age_secs(at, store.now) as i64)
                    &&& report.healthy == (age_secs(at, store.now) < max_pending_age.micros
                        / 1_000_000)
                },
                None => report.oldest_pending_age_secs is None && report.healthy,
            }
        };
    assert forall|j: int| 0 <= j < rows.len() && (#[trigger] rows[j]).status is Pending implies oldest
        is Some && oldest->0 <= rows[j].created_at by {
        lemma_oldest(rows, None, oldest, j);
    }
    if let Some(at) = oldest {
        let j = lemma_oldest_stands(rows, None, at);
        assert(rows[j].status is Pending);
        assert(rows[j].created_at <= store.now);
        assert forall|j: int| 0 <= j < rows.len() && (#[trigger] rows[j]).status is Pending implies (
        store.now - rows[j].created_at) / 1_000_000 <= (store.now - at) / 1_000_000 by {
            vstd::arithmetic::div_mod::lemma_div_is_ordered(
                store.now - rows[j].created_at,
                store.now - at,
                1_000_000,
            );
        }
    }
}

/// The age between two points in time is the number of whole seconds that lie between them. It is
/// counted backwards where the first is the later one.
pub proof fn age_is_in_whole_seconds(from: Timestamp, to: Timestamp)
    ensures
        from <= to ==> age_secs(from, to) * 1_000_000 <= to - from < (age_secs(from, to) + 1)
            * 1_000_000,
        age_secs(to, from) == -age_secs(from, to),
{
}

} // verus!
