//! Figures on queues, subscribers and the outbox as a whole.
use vstd::prelude::*;
use vstd::string::*;

use crate::error::Result;
use crate::like::matches_like;
use crate::store::Store;
use crate::subscriber::{event_pattern, in_feed};
use crate::text::same_text;
use crate::time::Timestamp;
use crate::types::{MessageKind, MessageStatus, OutboxRow};

verus! {

/// The figures of a queue.
#[derive(Debug)]
pub struct QueueStats {
    pub queue: String,
    pub pending: i64,
    pub claimed: i64,
    pub dead: i64,
    pub delivered: i64,
    pub oldest_pending: Option<Timestamp>,
}

/// The figures of a subscriber.
#[derive(Debug)]
pub struct SubscriberStats {
    pub id: String,
    pub entity_type: String,
    pub last_seen_id: i64,
    pub latest_outbox_id: i64,
    pub lag: i64,
}

/// The figures of the outbox.
#[derive(Debug)]
pub struct OverallStats {
    pub total_pending: i64,
    pub total_claimed: i64,
    pub total_delivered: i64,
    pub total_dead: i64,
    pub table_size: i64,
}

/// Which rows are looked at: the tasks of a queue, or all rows.
pub open spec fn in_scope(row: OutboxRow, queue: Option<Seq<char>>) -> bool {
    match queue {
        Some(queue) => row.kind is Task && row.key@ == queue,
        None => true,
    }
}

/// The rows of a status.
pub open spec fn with_status(
    rows: Seq<OutboxRow>,
    queue: Option<Seq<char>>,
    status: MessageStatus,
) -> Seq<OutboxRow> {
    rows.filter(|row: OutboxRow| in_scope(row, queue) && row.status == status)
}

/// Whether `oldest` is the time at which the oldest pending row was written, if there is one.
pub open spec fn is_oldest_pending(
    rows: Seq<OutboxRow>,
    queue: Option<Seq<char>>,
    oldest: Option<Timestamp>,
) -> bool {
    let pending = with_status(rows, queue, MessageStatus::Pending);
    match oldest {
        Some(at) => {
            &&& exists|i: int| 0 <= i < pending.len() && (#[trigger] pending[i]).created_at == at
            &&& forall|i: int| 0 <= i < pending.len() ==> at <= (#[trigger] pending[i]).created_at
        },
        None => pending.len() == 0,
    }
}

impl QueueStats {
    /// Whether the figures are those of the queue.
    pub open spec fn shows(self, rows: Seq<OutboxRow>, queue: Seq<char>) -> bool {
        &&& self.queue@ == queue
        &&& self.pending == with_status(rows, Some(queue), MessageStatus::Pending).len()
        &&& self.claimed == with_status(rows, Some(queue), MessageStatus::Claimed).len()
        &&& self.dead == with_status(rows, Some(queue), MessageStatus::Dead).len()
        &&& self.delivered == with_status(rows, Some(queue), MessageStatus::Delivered).len()
        &&& is_oldest_pending(rows, Some(queue), self.oldest_pending)
    }
}

impl OverallStats {
    /// Whether the figures are those of the outbox.
    pub open spec fn shows(self, rows: Seq<OutboxRow>) -> bool {
        &&& self.total_pending == with_status(rows, None, MessageStatus::Pending).len()
        &&& self.total_claimed == with_status(rows, None, MessageStatus::Claimed).len()
        &&& self.total_delivered == with_status(rows, None, MessageStatus::Delivered).len()
        &&& self.total_dead == with_status(rows, None, MessageStatus::Dead).len()
        &&& self.table_size == rows.len()
    }
}

/// What was counted.
#[derive(Debug)]
pub struct Tally {
    pub pending: i64,
    pub claimed: i64,
    pub delivered: i64,
    pub dead: i64,
    pub oldest_pending: Option<Timestamp>,
}

impl Tally {
    /// Whether the rows were counted.
    pub open spec fn counts(self, rows: Seq<OutboxRow>, queue: Option<Seq<char>>) -> bool {
        &&& self.pending == with_status(rows, queue, MessageStatus::Pending).len()
        &&& self.claimed == with_status(rows, queue, MessageStatus::Claimed).len()
        &&& self.delivered == with_status(rows, queue, MessageStatus::Delivered).len()
        &&& self.dead == with_status(rows, queue, MessageStatus::Dead).len()
        &&& is_oldest_pending(rows, queue, self.oldest_pending)
    }
}

proof fn lemma_with_status_push(
    rows: Seq<OutboxRow>,
    row: OutboxRow,
    queue: Option<Seq<char>>,
    status: MessageStatus,
)
    ensures
        with_status(rows.push(row), queue, status) == if in_scope(row, queue) && row.status
            == status {
            with_status(rows, queue, status).push(row)
        } else {
            with_status(rows, queue, status)
        },
        with_status(rows, queue, status).len() <= rows.len(),
{
    reveal(Seq::filter);
    assert(rows.push(row).drop_last() =~= rows);
    lemma_filter_shorter(rows, |row: OutboxRow| in_scope(row, queue) && row.status == status);
}

proof fn lemma_filter_shorter(rows: Seq<OutboxRow>, keep: spec_fn(OutboxRow) -> bool)
    ensures
        rows.filter(keep).len() <= rows.len(),
    decreases rows.len(),
{
    reveal(Seq::filter);
    if rows.len() > 0 {
        lemma_filter_shorter(rows.drop_last(), keep);
    }
}

/// Counts the tasks of a queue, or all rows.
pub fn tally(store: &Store, queue: Option<&str>) -> (r: Tally)
    requires
        store.wf(),
    ensures
        r.counts(
            store.outbox@,
            match queue {
                Some(queue) => Some(queue@),
                None => None,
            },
        ),
{
    let ghost rows = store.outbox@;
    let ghost scope = match queue {
        Some(queue) => Some(queue@),
        None => None,
    };
    proof {
        crate::store::rows_are_countable(rows, store.next_id);
    }
    let mut r: Tally = Tally {
        pending: 0,
        claimed: 0,
        delivered: 0,
        dead: 0,
        oldest_pending: None,
    };
    let n: usize = store.outbox.len();
    let mut i: usize = 0;
    proof {
        reveal(Seq::filter);
        assert(rows.take(0) =~= Seq::<OutboxRow>::empty());
    }
    while i < n
        invariant
            n == store.outbox.len(),
            i <= n < i64::MAX,
            rows == store.outbox@,
            scope == (match queue {
                Some(queue) => Some(queue@),
                None => None,
            }),
            r.counts(rows.take(i as int), scope),
            r.pending <= i,
            r.claimed <= i,
            r.delivered <= i,
            r.dead <= i,
        decreases n - i,
    {
        let row: &OutboxRow = &store.outbox[i];
        let counted: bool = match queue {
            Some(queue) => row.kind == MessageKind::Task && same_text(row.key.as_str(), queue),
            None => true,
        };
        proof {
            assert(rows.take(i + 1) =~= rows.take(i as int).push(rows[i as int]));
            lemma_with_status_push(
                rows.take(i as int),
                rows[i as int],
                scope,
                MessageStatus::Pending,
            );
            lemma_with_status_push(
                rows.take(i as int),
                rows[i as int],
                scope,
                MessageStatus::Claimed,
            );
            lemma_with_status_push(
                rows.take(i as int),
                rows[i as int],
                scope,
                MessageStatus::Delivered,
            );
            lemma_with_status_push(rows.take(i as int), rows[i as int], scope, MessageStatus::Dead);
        }
        let ghost before = with_status(rows.take(i as int), scope, MessageStatus::Pending);
        let ghost after = with_status(rows.take(i + 1), scope, MessageStatus::Pending);
        if counted {
            match row.status {
                MessageStatus::Pending => {
                    r.pending = r.pending + 1;
                    let older: bool = match r.oldest_pending {
                        Some(at) => row.created_at < at,
                        None => true,
                    };
                    let ghost held = r.oldest_pending;
                    if older {
                        r.oldest_pending = Some(row.created_at);
                    }
                    proof {
                        assert(after[before.len() as int] == rows[i as int]);
                        assert forall|j: int| 0 <= j < after.len() implies r.oldest_pending->0 <= (
                        #[trigger] after[j]).created_at by {
                            if j < before.len() {
                                assert(after[j] == before[j]);
                            }
                        }
                        if !older {
                            let j = choose|j: int|
                                0 <= j < before.len() && (#[trigger] before[j]).created_at
                                    == held->0;
                            assert(after[j].created_at == held->0);
                        }
                        assert(is_oldest_pending(rows.take(i + 1), scope, r.oldest_pending));
                    }
                },
                MessageStatus::Claimed => {
                    r.claimed = r.claimed + 1;
                },
                MessageStatus::Delivered => {
                    r.delivered = r.delivered + 1;
                },
                MessageStatus::Dead => {
                    r.dead = r.dead + 1;
                },
                MessageStatus::Failed => {},
            }
        }
        i = i + 1;
    }
    assert(rows.take(n as int) =~= rows);
    r
}

/// The figures of a queue.
pub fn queue_stats(store: &Store, queue: &str) -> (r: Result<QueueStats>)
    requires
        store.wf(),
    ensures
        r is Ok,
        r->Ok_0.shows(store.outbox@, queue@),
{
    let counted: Tally = tally(store, Some(queue));
    Ok(
        QueueStats {
            queue: queue.to_owned(),
            pending: counted.pending,
            claimed: counted.claimed,
            dead: counted.dead,
            delivered: counted.delivered,
            oldest_pending: counted.oldest_pending,
        },
    )
}

/// The figures of the outbox.
pub fn overall_stats(store: &Store) -> (r: Result<OverallStats>)
    requires
        store.wf(),
    ensures
        r is Ok,
        r->Ok_0.shows(store.outbox@),
{
    let counted: Tally = tally(store, None);
    proof {
        crate::store::rows_are_countable(store.outbox@, store.next_id);
    }
    Ok(
        OverallStats {
            total_pending: counted.pending,
            total_claimed: counted.claimed,
            total_delivered: counted.delivered,
            total_dead: counted.dead,
            table_size: store.outbox.len() as i64,
        },
    )
}

/// The highest identifier of an event whose key matches a pattern, or zero.
pub open spec fn latest_event(rows: Seq<OutboxRow>, pattern: Seq<char>) -> int
    decreases rows.len(),
{
    if rows.len() == 0 {
        0
    } else {
        let before = latest_event(rows.drop_last(), pattern);
        if in_feed(rows.last(), pattern) && rows.last().id > before {
            rows.last().id as int
        } else {
            before
        }
    }
}

/// How far a subscriber is behind.
pub open spec fn lag_of(store: Store, id: Seq<char>) -> int {
    let row = store.subscribers@[id];
    latest_event(store.outbox@, event_pattern(row.entity_type@)) - row.last_seen_id
}

/// How far a cursor is behind the latest event.
pub fn lag_behind(latest_outbox_id: i64, last_seen_id: i64) -> (r: i64)
    requires
        i64::MIN <= latest_outbox_id - last_seen_id <= i64::MAX,
    ensures
        r == latest_outbox_id - last_seen_id,
{
    latest_outbox_id - last_seen_id
}

/// Whether the figures are those of the subscriber, if there is one.
pub open spec fn subscriber_counted(
    store: Store,
    r: Result<Option<SubscriberStats>>,
    id: Seq<char>,
) -> bool {
    match r {
        Ok(Some(stats)) => {
            &&& store.subscribers@.contains_key(id)
            &&& stats.id@ == id
            &&& stats.entity_type@ == store.subscribers@[id].entity_type@
            &&& stats.last_seen_id == store.subscribers@[id].last_seen_id
            &&& stats.latest_outbox_id == latest_event(
                store.outbox@,
                event_pattern(stats.entity_type@),
            )
            &&& stats.lag == lag_of(store, id)
        },
        Ok(None) => !store.subscribers@.contains_key(id),
        Err(e) => false,
    }
}

/// The figures of a subscriber, if there is one.
pub fn subscriber_stats(store: &Store, subscriber_id: &str) -> (r: Result<Option<SubscriberStats>>)
    requires
        store.wf(),
        store.subscribers@.contains_key(subscriber_id@) ==> lag_of(*store, subscriber_id@)
            <= i64::MAX,
    ensures
        subscriber_counted(*store, r, subscriber_id@),
{
    let key: String = subscriber_id.to_owned();
    let (entity_type, last_seen_id): (String, i64) = match store.subscribers.get(&key) {
        Some(row) => (row.entity_type.clone(), row.last_seen_id),
        None => return Ok(None),
    };
    let pattern: String = entity_type.as_str().to_owned().concat(":").concat("%");
    let ghost rows = store.outbox@;
    let n: usize = store.outbox.len();
    let mut latest: i64 = 0;
    let mut i: usize = 0;
    assert(rows.take(0) =~= Seq::<OutboxRow>::empty());
    while i < n
        invariant
            n == store.outbox.len(),
            i <= n,
            rows == store.outbox@,
            latest == latest_event(rows.take(i as int), pattern@),
            latest >= 0,
        decreases n - i,
    {
        let row: &OutboxRow = &store.outbox[i];
        assert(rows.take(i + 1).drop_last() =~= rows.take(i as int));
        assert(rows.take(i + 1).last() == rows[i as int]);
        if row.kind == MessageKind::Event && matches_like(pattern.as_str(), row.key.as_str())
            && row.id > latest {
            latest = row.id;
        }
        i = i + 1;
    }
    assert(rows.take(n as int) =~= rows);
    Ok(
        Some(
            SubscriberStats {
                id: key,
                entity_type,
                last_seen_id,
                latest_outbox_id: latest,
                lag: lag_behind(latest, last_seen_id),
            },
        ),
    )
}

/// A row is counted under one status at most: pending, claimed, delivered, dead and failed rows
/// together make up the table.
pub proof fn statuses_partition_table(rows: Seq<OutboxRow>)
    ensures
        with_status(rows, None, MessageStatus::Pending).len() + with_status(
            rows,
            None,
            MessageStatus::Claimed,
        ).len() + with_status(rows, None, MessageStatus::Delivered).len() + with_status(
            rows,
            None,
            MessageStatus::Dead,
        ).len() + with_status(rows, None, MessageStatus::Failed).len() == rows.len(),
    decreases rows.len(),
{
    reveal(Seq::filter);
    if rows.len() > 0 {
        let before = rows.drop_last();
        let row = rows.last();
        assert(before.push(row) =~= rows);
        statuses_partition_table(before);
        lemma_with_status_push(before, row, None, MessageStatus::Pending);
        lemma_with_status_push(before, row, None, MessageStatus::Claimed);
        lemma_with_status_push(before, row, None, MessageStatus::Delivered);
        lemma_with_status_push(before, row, None, MessageStatus::Dead);
        lemma_with_status_push(before, row, None, MessageStatus::Failed);
    }
}

} // verus!
