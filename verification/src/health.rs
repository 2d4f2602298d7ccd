//! Whether the rows are worked off in time.
use vstd::prelude::*;

use crate::error::Result;
use crate::stats::{is_oldest_pending, tally, with_status, Tally};
use crate::store::Store;
use crate::time::{Span, Timestamp};
use crate::types::MessageStatus;

verus! {

/// Whether the rows are worked off in time.
#[derive(Debug)]
pub struct HealthReport {
    pub healthy: bool,
    pub pending: i64,
    pub oldest_pending_age_secs: Option<i64>,
}

impl HealthReport {
    /// Whether the report is right: all is well as long as the oldest pending row is younger than
    /// that, in whole seconds.
    pub open spec fn shows(self, store: Store, max_pending_age: Span) -> bool {
        &&& self.pending == with_status(store.outbox@, None, MessageStatus::Pending).len()
        &&& exists|oldest: Option<Timestamp>|
            {
                &&& #[trigger] is_oldest_pending(store.outbox@, None, oldest)
                &&& match oldest {
                    Some(at) => {
                        &&& self.oldest_pending_age_secs == Some(age_secs(at, store.now) as i64)
                        &&& self.healthy == (age_secs(at, store.now) < max_pending_age.micros
                            / 1_000_000)
                    },
                    None => self.oldest_pending_age_secs is None && self.healthy,
                }
            }
    }
}

/// The whole seconds between two points in time.
pub open spec fn age_secs(from: Timestamp, to: Timestamp) -> int {
    if from <= to {
        (to - from) / 1_000_000
    } else {
        -((from - to) / 1_000_000)
    }
}

/// The whole seconds between two points in time.
pub fn age(from: Timestamp, to: Timestamp) -> (r: i64)
    ensures
        r == age_secs(from, to),
{
    let micros: i128 = if from <= to {
        to as i128 - from as i128
    } else {
        from as i128 - to as i128
    };
    let secs: i64 = (micros / 1_000_000) as i64;
    if from <= to {
        secs
    } else {
        -secs
    }
}

/// Draws the report from what was counted: all is well as long as the oldest pending row is younger
/// than that, in whole seconds.
pub fn report(pending: i64, oldest_age_secs: Option<i64>, max_pending_age: Span) -> (r: HealthReport)
    ensures
        r.healthy == match oldest_age_secs {
            Some(age) => age < max_pending_age.micros / 1_000_000,
            None => true,
        },
        r.pending == pending,
        r.oldest_pending_age_secs == oldest_age_secs,
{
    let healthy: bool = match oldest_age_secs {
        Some(age) => age < max_pending_age.as_secs() as i64,
        None => true,
    };
    HealthReport { healthy, pending, oldest_pending_age_secs: oldest_age_secs }
}

/// Whether no row has been pending for that long.
pub fn check(store: &Store, max_pending_age: Span) -> (r: Result<HealthReport>)
    requires
        store.wf(),
    ensures
        r is Ok,
        r->Ok_0.shows(*store, max_pending_age),
{
    let counted: Tally = tally(store, None);
    let oldest_age_secs: Option<i64> = match counted.oldest_pending {
        Some(at) => Some(age(at, store.now)),
        None => None,
    };
    assert(is_oldest_pending(store.outbox@, None, counted.oldest_pending));
    Ok(report(counted.pending, oldest_age_secs, max_pending_age))
}

} // verus!
