//! The rules of the outbox table: which rows a query finds, and what a statement makes of a row.
use vstd::prelude::*;

use crate::error::DbError;
use crate::like::{like, matches_like};
use crate::ranking::{choose_first, first_ranked, Rank};
use crate::text::same_text;
use crate::time::Timestamp;
use crate::types::{MessageKind, MessageStatus, OutboxRow};

verus! {

/// Whether a row is still to be worked off.
pub open spec fn is_active(row: OutboxRow) -> bool {
    row.status is Pending || row.status is Claimed
}

/// Whether a row was submitted under a deduplication key.
pub open spec fn has_dedup(row: OutboxRow, key: Seq<char>) -> bool {
    row.dedup_key matches Some(k) && k@ == key
}

/// Whether a row that is still to be worked off has a deduplication key.
pub open spec fn holds_dedup(rows: Seq<OutboxRow>, key: Seq<char>) -> bool {
    exists|i: int| 0 <= i < rows.len() && is_active(#[trigger] rows[i]) && has_dedup(rows[i], key)
}

/// Whether a new row of this deduplication key is refused.
pub open spec fn dedup_taken(rows: Seq<OutboxRow>, key: Option<String>) -> bool {
    key matches Some(k) && holds_dedup(rows, k@)
}

/// No identifier occurs twice.
pub open spec fn distinct_ids(rows: Seq<OutboxRow>) -> bool {
    forall|i: int, j: int|
        0 <= i < j < rows.len() ==> (#[trigger] rows[i]).id != (#[trigger] rows[j]).id
}

/// Of the rows that are still to be worked off, no two have the same deduplication key.
pub open spec fn distinct_dedup(rows: Seq<OutboxRow>) -> bool {
    forall|i: int, j: int|
        #![trigger rows[i], rows[j]]
        0 <= i < j < rows.len() && is_active(rows[i]) && is_active(rows[j]) ==> !same_dedup(
            rows[i],
            rows[j],
        )
}

/// Whether two rows have the same deduplication key.
pub open spec fn same_dedup(a: OutboxRow, b: OutboxRow) -> bool {
    match (a.dedup_key, b.dedup_key) {
        (Some(x), Some(y)) => x@ == y@,
        _ => false,
    }
}

/// What a statement does to the row that it is sent for.
#[derive(Debug, Clone, Copy, PartialEq, Eq, Structural)]
pub enum Change {
    /// The row has been worked off.
    Deliver { at: Timestamp },
    /// The row is given up.
    Bury { at: Timestamp },
    /// The row is to be tried again from then on.
    Reschedule { visible_at: Timestamp },
    /// A claimed row stays out of sight until then.
    Extend { visible_at: Timestamp },
    /// A claimed row has got this far.
    Progress { progress: i16 },
    /// A row that was given up is to be tried again.
    Revive { visible_at: Timestamp },
}

impl Change {
    /// The rows that the change is for.
    pub open spec fn applies(self, row: OutboxRow) -> bool {
        match self {
            Change::Extend { .. } => row.status is Claimed,
            Change::Progress { .. } => row.status is Claimed,
            Change::Revive { .. } => row.status is Dead,
            _ => true,
        }
    }

    /// What the change makes of a row that it is for.
    pub open spec fn apply(self, row: OutboxRow) -> OutboxRow {
        match self {
            Change::Deliver { at } => OutboxRow {
                status: MessageStatus::Delivered,
                delivered_at: Some(at),
                ..row
            },
            Change::Bury { at } => OutboxRow {
                status: MessageStatus::Dead,
                delivered_at: Some(at),
                ..row
            },
            Change::Reschedule { visible_at } => OutboxRow {
                status: MessageStatus::Pending,
                visible_at,
                ..row
            },
            Change::Extend { visible_at } => OutboxRow { visible_at, ..row },
            Change::Progress { progress } => OutboxRow { progress, ..row },
            Change::Revive { visible_at } => OutboxRow {
                status: MessageStatus::Pending,
                attempts: 0,
                visible_at,
                ..row
            },
        }
    }

    /// Whether the change brings back a row whose deduplication key has been taken since.
    pub open spec fn refused(self, rows: Seq<OutboxRow>, row: OutboxRow) -> bool {
        &&& self.applies(row)
        &&& !is_active(row)
        &&& is_active(self.apply(row))
        &&& dedup_taken(rows, row.dedup_key)
    }
}

/// The table after a change to the row with this identifier.
pub open spec fn changed(rows: Seq<OutboxRow>, id: i64, change: Change) -> Seq<OutboxRow> {
    rows.map_values(
        |row: OutboxRow|
            if row.id == id && change.applies(row) {
                change.apply(row)
            } else {
                row
            },
    )
}

/// Whether a change to the row with this identifier is refused.
pub open spec fn change_refused(rows: Seq<OutboxRow>, id: i64, change: Change) -> bool {
    exists|i: int|
        0 <= i < rows.len() && (#[trigger] rows[i]).id == id && change.refused(rows, rows[i])
}

/// Whether a row is active.
pub fn active(row: &OutboxRow) -> (r: bool)
    ensures
        r == is_active(*row),
{
    row.status == MessageStatus::Pending || row.status == MessageStatus::Claimed
}

/// Whether a new row of this deduplication key would be refused.
pub fn is_dedup_taken(rows: &Vec<OutboxRow>, key: &Option<String>) -> (r: bool)
    ensures
        r == dedup_taken(rows@, *key),
{
    match key {
        None => false,
        Some(k) => {
            let n: usize = rows.len();
            let mut i: usize = 0;
            while i < n
                invariant
                    n == rows.len(),
                    i <= n,
                    *key == Some(*k),
                    forall|j: int|
                        0 <= j < i ==> !(is_active(#[trigger] rows@[j]) && has_dedup(
                            rows@[j],
                            k@,
                        )),
                decreases n - i,
            {
                if active(&rows[i]) {
                    if let Some(held) = &rows[i].dedup_key {
                        if same_text(held.as_str(), k.as_str()) {
                            assert(is_active(rows@[i as int]) && has_dedup(rows@[i as int], k@));
                            return true;
                        }
                    }
                }
                i = i + 1;
            }
            false
        },
    }
}

/// The place of the row with an identifier.
pub fn find_id(rows: &Vec<OutboxRow>, id: i64) -> (r: Option<usize>)
    ensures
        match r {
            Some(i) => i < rows.len() && rows@[i as int].id == id,
            None => forall|i: int| 0 <= i < rows.len() ==> (#[trigger] rows@[i]).id != id,
        },
{
    let n: usize = rows.len();
    let mut i: usize = 0;
    while i < n
        invariant
            n == rows.len(),
            i <= n,
            forall|j: int| 0 <= j < i ==> (#[trigger] rows@[j]).id != id,
        decreases n - i,
    {
        if rows[i].id == id {
            return Some(i);
        }
        i = i + 1;
    }
    None
}

/// Changes the row with an identifier, if there is one that the change is for.
pub fn change_row(rows: &mut Vec<OutboxRow>, id: i64, change: Change) -> (r: Result<(), DbError>)
    requires
        distinct_ids(old(rows)@),
    ensures
        match r {
            Ok(()) => !change_refused(old(rows)@, id, change) && final(rows)@ == changed(
                old(rows)@,
                id,
                change,
            ),
            Err(e) => change_refused(old(rows)@, id, change) && e is UniqueViolation
                && final(rows)@ == old(rows)@,
        },
{
    let i: usize = match find_id(rows, id) {
        Some(i) => i,
        None => {
            assert(changed(rows@, id, change) =~= rows@);
            return Ok(());
        },
    };
    let ghost before = rows@;
    let status: MessageStatus = rows[i].status;
    let applies: bool = match change {
        Change::Extend { .. } => status == MessageStatus::Claimed,
        Change::Progress { .. } => status == MessageStatus::Claimed,
        Change::Revive { .. } => status == MessageStatus::Dead,
        _ => true,
    };
    proof {
        assert forall|j: int| 0 <= j < before.len() && (#[trigger] before[j]).id == id implies j
            == i by {
            if j < i {
                assert(before[j].id != before[i as int].id);
            } else if i < j {
                assert(before[i as int].id != before[j].id);
            }
        }
    }
    if !applies {
        assert(changed(before, id, change) =~= before);
        return Ok(());
    }
    let activates: bool = match change {
        Change::Reschedule { .. } => true,
        Change::Revive { .. } => true,
        _ => false,
    };
    if activates && !active(&rows[i]) && is_dedup_taken(rows, &rows[i].dedup_key) {
        assert(change.refused(before, before[i as int]));
        return Err(DbError::UniqueViolation);
    }
    assert(!change.refused(before, before[i as int]));
    match change {
        Change::Deliver { at } => {
            rows[i].status = MessageStatus::Delivered;
            rows[i].delivered_at = Some(at);
        },
        Change::Bury { at } => {
            rows[i].status = MessageStatus::Dead;
            rows[i].delivered_at = Some(at);
        },
        Change::Reschedule { visible_at } => {
            rows[i].status = MessageStatus::Pending;
            rows[i].visible_at = visible_at;
        },
        Change::Extend { visible_at } => {
            rows[i].visible_at = visible_at;
        },
        Change::Progress { progress } => {
            rows[i].progress = progress;
        },
        Change::Revive { visible_at } => {
            rows[i].status = MessageStatus::Pending;
            rows[i].attempts = 0;
            rows[i].visible_at = visible_at;
        },
    }
    assert(rows@ =~= changed(before, id, change));
    Ok(())
}

/// A query for the first few rows in an order.
#[derive(Debug)]
pub enum Query {
    /// The tasks of a queue that can be claimed: high priority first, then in the order in which
    /// they were submitted.
    Claimable { queue: String, now: Timestamp },
    /// The events that the relay delivers, in the same order.
    Undelivered { now: Timestamp },
    /// The events of keys that match a pattern behind a cursor and before an identifier, in the
    /// order in which they were published.
    Feed { pattern: String, after: i64, before: i64 },
    /// The rows of a queue that were given up, youngest first.
    Buried { queue: String },
}

impl Query {
    /// The place of a row in the query's order, if the query finds it.
    pub open spec fn rank(self, row: OutboxRow) -> Option<Rank> {
        match self {
            Query::Claimable { queue, now } => if row.kind is Task && row.key@ == queue@
                && is_active(row) && row.visible_at <= now {
                Some(((-(row.priority as int)) as i128, row.id as i128))
            } else {
                None
            },
            Query::Undelivered { now } => if row.kind is Event && row.status is Pending
                && row.visible_at <= now {
                Some(((-(row.priority as int)) as i128, row.id as i128))
            } else {
                None
            },
            Query::Feed { pattern, after, before } => if row.kind is Event && like(
                pattern@,
                row.key@,
            ) && after < row.id < before {
                Some((row.id as i128, 0))
            } else {
                None
            },
            Query::Buried { queue } => if row.status is Dead && row.key@ == queue@ {
                Some(((-(row.created_at as int)) as i128, 0))
            } else {
                None
            },
        }
    }

    /// The places of all rows.
    pub open spec fn ranks(self, rows: Seq<OutboxRow>) -> Seq<Option<Rank>> {
        rows.map_values(|row: OutboxRow| self.rank(row))
    }

    fn rank_of(&self, row: &OutboxRow) -> (r: Option<Rank>)
        ensures
            r == self.rank(*row),
    {
        match self {
            Query::Claimable { queue, now } => if row.kind == MessageKind::Task && same_text(
                row.key.as_str(),
                queue.as_str(),
            ) && active(row) && row.visible_at <= *now {
                Some((-(row.priority as i128), row.id as i128))
            } else {
                None
            },
            Query::Undelivered { now } => if row.kind == MessageKind::Event && row.status
                == MessageStatus::Pending && row.visible_at <= *now {
                Some((-(row.priority as i128), row.id as i128))
            } else {
                None
            },
            Query::Feed { pattern, after, before } => if row.kind == MessageKind::Event
                && matches_like(pattern.as_str(), row.key.as_str()) && *after < row.id && row.id
                < *before {
                Some((row.id as i128, 0))
            } else {
                None
            },
            Query::Buried { queue } => if row.status == MessageStatus::Dead && same_text(
                row.key.as_str(),
                queue.as_str(),
            ) {
                Some((-(row.created_at as i128), 0))
            } else {
                None
            },
        }
    }

    /// The places of the first `limit` rows that the query finds, in its order.
    pub fn select(&self, rows: &Vec<OutboxRow>, limit: i64) -> (r: Vec<usize>)
        requires
            limit >= 0,
        ensures
            first_ranked(self.ranks(rows@), r@, limit as int),
    {
        let mut ranks: Vec<Option<Rank>> = Vec::new();
        let n: usize = rows.len();
        let mut i: usize = 0;
        while i < n
            invariant
                n == rows.len(),
                i <= n,
                ranks.len() == i,
                forall|j: int| 0 <= j < i ==> (#[trigger] ranks@[j]) == self.rank(rows@[j]),
            decreases n - i,
        {
            let rank: Option<Rank> = self.rank_of(&rows[i]);
            ranks.push(rank);
            i = i + 1;
        }
        assert(ranks@ =~= self.ranks(rows@));
        choose_first(&ranks, limit as i128)
    }
}

/// Whether `found` are copies of the rows at the given places.
pub open spec fn copies_of(found: Seq<OutboxRow>, rows: Seq<OutboxRow>, places: Seq<usize>) -> bool {
    &&& found.len() == places.len()
    &&& forall|k: int|
        0 <= k < found.len() ==> (#[trigger] found[k]).same(rows[places[k] as int])
}

/// Whether `found` is what the query hands out, at most `limit` rows of it.
pub open spec fn answers(query: Query, rows: Seq<OutboxRow>, limit: int, found: Seq<OutboxRow>) -> bool {
    exists|places: Seq<usize>|
        first_ranked(query.ranks(rows), places, limit) && #[trigger] copies_of(found, rows, places)
}

/// Copies of the rows at the given places.
pub fn copy_rows(rows: &Vec<OutboxRow>, places: &Vec<usize>) -> (r: Vec<OutboxRow>)
    requires
        forall|k: int| 0 <= k < places.len() ==> (#[trigger] places@[k]) < rows.len(),
    ensures
        copies_of(r@, rows@, places@),
{
    let mut found: Vec<OutboxRow> = Vec::new();
    let n: usize = places.len();
    let mut k: usize = 0;
    while k < n
        invariant
            n == places.len(),
            k <= n,
            found.len() == k,
            forall|j: int| 0 <= j < places.len() ==> (#[trigger] places@[j]) < rows.len(),
            forall|j: int|
                0 <= j < k ==> (#[trigger] found@[j]).same(rows@[places@[j] as int]),
        decreases n - k,
    {
        let place: usize = places[k];
        let copy: OutboxRow = rows[place].clone();
        found.push(copy);
        k = k + 1;
    }
    found
}

/// Answers a query.
pub fn run_query(rows: &Vec<OutboxRow>, query: &Query, limit: i64) -> (r: Result<
    Vec<OutboxRow>,
    DbError,
>)
    ensures
        match r {
            Ok(found) => limit >= 0 && answers(*query, rows@, limit as int, found@),
            Err(e) => limit < 0 && e is NegativeLimit,
        },
{
    if limit < 0 {
        return Err(DbError::NegativeLimit);
    }
    let places: Vec<usize> = query.select(rows, limit);
    let found: Vec<OutboxRow> = copy_rows(rows, &places);
    assert(copies_of(found@, rows@, places@));
    Ok(found)
}

} // verus!
