//! Recurring tasks.
use vstd::prelude::*;
use vstd::string::*;

use crate::cron::{next_fire_after, read_schedule, schedule_reading};
use crate::dict::Dict;
use crate::error::{DbError, Result, StrunkError};
use crate::json::{Json, JsonView};
use crate::outbox::{
    has_dedup, holds_dedup, is_active, is_dedup_taken, same_dedup,
};
use crate::ranking::{choose_first, first_ranked, rank_le, Rank};
use crate::store::Store;
use crate::time::{
    format_time, time_text, utc_now, Interval, Span, Timestamp, Unit, MAX_TIMESTAMP,
    MINUTE_PATTERN, MIN_TIMESTAMP,
};
use crate::types::{MessageKind, MessageStatus, OutboxRow};

verus! {

/// A recurring task.
#[derive(Debug)]
pub struct Schedule {
    pub id: String,
    pub queue: String,
    pub payload: Json,
    pub cron: String,
    pub max_retries: i32,
    pub priority: i32,
    pub enabled: bool,
    pub last_fired: Option<Timestamp>,
    pub next_fire: Timestamp,
}

impl Schedule {
    /// Whether two schedules hold the same.
    pub open spec fn same(self, other: Schedule) -> bool {
        &&& self.id@ == other.id@
        &&& self.queue@ == other.queue@
        &&& self.payload@ == other.payload@
        &&& self.cron@ == other.cron@
        &&& self.max_retries == other.max_retries
        &&& self.priority == other.priority
        &&& self.enabled == other.enabled
        &&& self.last_fired == other.last_fired
        &&& self.next_fire == other.next_fire
    }

    /// Whether the schedule is due.
    pub open spec fn due(self, now: Timestamp) -> bool {
        self.enabled && self.next_fire <= now
    }
}

impl Clone for Schedule {
    fn clone(&self) -> (r: Schedule)
        ensures
            r.same(*self),
    {
        Schedule {
            id: self.id.clone(),
            queue: self.queue.clone(),
            payload: self.payload.clone(),
            cron: self.cron.clone(),
            max_retries: self.max_retries,
            priority: self.priority,
            enabled: self.enabled,
            last_fired: self.last_fired,
            next_fire: self.next_fire,
        }
    }
}

/// A schedule that is to be registered.
#[derive(Debug)]
pub struct ScheduleBuilder {
    pub id: String,
    pub queue: String,
    pub payload: Json,
    pub cron: String,
    pub max_retries: i32,
    pub priority: i32,
}

/// What stands in the table of schedules after one has been registered. One that is there keeps the
/// times at which it fired and is to fire.
pub open spec fn schedule_registered(
    before: Map<Seq<char>, Schedule>,
    after: Map<Seq<char>, Schedule>,
    builder: ScheduleBuilder,
    first_fire: int,
) -> bool {
    let id = builder.id@;
    &&& after.contains_key(id)
    &&& after == before.insert(id, after[id])
    &&& after[id].id@ == id
    &&& after[id].queue@ == builder.queue@
    &&& after[id].payload@ == builder.payload@
    &&& after[id].cron@ == builder.cron@
    &&& after[id].max_retries == builder.max_retries
    &&& after[id].priority == builder.priority
    &&& after[id].enabled
    &&& if before.contains_key(id) {
        &&& after[id].last_fired == before[id].last_fired
        &&& after[id].next_fire == before[id].next_fire
    } else {
        &&& after[id].last_fired is None
        &&& after[id].next_fire == first_fire
    }
}

/// Whether a schedule has been registered at a time of the clock. It is left out where the calendar
/// ends before it would fire, and refused where it cannot be read.
pub open spec fn registered_at(
    before: Store,
    after: Store,
    r: Result<bool>,
    builder: ScheduleBuilder,
    clock: Timestamp,
) -> bool {
    &&& after == (Store { schedules: after.schedules, ..before })
    &&& match schedule_reading(builder.cron@) {
        Ok(interval) => {
            &&& r == Result::<bool>::Ok(interval.reaches(clock))
            &&& if interval.reaches(clock) {
                schedule_registered(
                    before.schedules@,
                    after.schedules@,
                    builder,
                    clock + interval.secs() * 1_000_000,
                )
            } else {
                after == before
            }
        },
        Err(text) => r is Err && r->Err_0 is Config && r->Err_0.text() == text && after == before,
    }
}

impl ScheduleBuilder {
    pub fn new(id: &str, queue: &str, cron: &str) -> (r: ScheduleBuilder)
        ensures
            r.id@ == id@,
            r.queue@ == queue@,
            r.payload@ == JsonView::Object(Seq::empty()),
            r.cron@ == cron@,
            r.max_retries == 3,
            r.priority == 0,
    {
        ScheduleBuilder {
            id: id.to_owned(),
            queue: queue.to_owned(),
            payload: Json::empty_object(),
            cron: cron.to_owned(),
            max_retries: 3,
            priority: 0,
        }
    }

    pub fn payload(self, payload: Json) -> (r: ScheduleBuilder)
        ensures
            r == (ScheduleBuilder { payload, ..self }),
    {
        ScheduleBuilder { payload, ..self }
    }

    pub fn max_retries(self, max_retries: i32) -> (r: ScheduleBuilder)
        ensures
            r == (ScheduleBuilder { max_retries, ..self }),
    {
        ScheduleBuilder { max_retries, ..self }
    }

    pub fn priority(self, priority: i32) -> (r: ScheduleBuilder)
        ensures
            r == (ScheduleBuilder { priority, ..self }),
    {
        ScheduleBuilder { priority, ..self }
    }

    /// Enters the schedule, given the time of the system's clock. Hands out whether it did: it does
    /// not where the calendar ends before the schedule would fire.
    pub fn register_at(self, store: &mut Store, clock: Timestamp) -> (r: Result<bool>)
        requires
            old(store).wf(),
            MIN_TIMESTAMP <= clock <= MAX_TIMESTAMP,
        ensures
            final(store).wf(),
            registered_at(*old(store), *final(store), r, self, clock),
    {
        let next: Timestamp = match next_fire_after(self.cron.as_str(), clock) {
            Ok(Some(next)) => next,
            Ok(None) => return Ok(false),
            Err(e) => return Err(e),
        };
        let ghost whole = self;
        let key: String = self.id.clone();
        let (last_fired, next_fire): (Option<Timestamp>, Timestamp) = match store.schedules.remove(
            &self.id,
        ) {
            Some(held) => (held.last_fired, held.next_fire),
            None => (None, next),
        };
        let row: Schedule = Schedule {
            id: self.id,
            queue: self.queue,
            payload: self.payload,
            cron: self.cron,
            max_retries: self.max_retries,
            priority: self.priority,
            enabled: true,
            last_fired,
            next_fire,
        };
        store.schedules.insert(key, row);
        assert(store.schedules@ =~= old(store).schedules@.insert(whole.id@, row));
        Ok(true)
    }

    /// Enters the schedule, by the system's clock.
    pub fn register(self, store: &mut Store) -> (r: Result<bool>)
        requires
            old(store).wf(),
        ensures
            final(store).wf(),
            exists|clock: Timestamp|
                0 <= clock <= MAX_TIMESTAMP && #[trigger] registered_at(
                    *old(store),
                    *final(store),
                    r,
                    self,
                    clock,
                ),
    {
        let clock: Timestamp = utc_now();
        self.register_at(store, clock)
    }
}

/// The table of schedules after one has been switched on or off, if it is there.
pub open spec fn with_enabled(
    schedules: Map<Seq<char>, Schedule>,
    id: Seq<char>,
    enabled: bool,
) -> Map<Seq<char>, Schedule> {
    if schedules.contains_key(id) {
        schedules.insert(id, Schedule { enabled, ..schedules[id] })
    } else {
        schedules
    }
}

fn set_enabled(store: &mut Store, id: &str, enabled: bool)
    requires
        old(store).wf(),
    ensures
        final(store).wf(),
        *final(store) == (Store { schedules: final(store).schedules, ..*old(store) }),
        final(store).schedules@ == with_enabled(old(store).schedules@, id@, enabled),
{
    let key: String = id.to_owned();
    if let Some(row) = store.schedules.remove(&key) {
        store.schedules.insert(key, Schedule { enabled, ..row });
    }
    assert(store.schedules@ =~= with_enabled(old(store).schedules@, id@, enabled));
}

/// Switches a schedule off.
pub fn disable(store: &mut Store, id: &str) -> (r: Result<()>)
    requires
        old(store).wf(),
    ensures
        final(store).wf(),
        r is Ok,
        *final(store) == (Store { schedules: final(store).schedules, ..*old(store) }),
        final(store).schedules@ == with_enabled(old(store).schedules@, id@, false),
{
    set_enabled(store, id, false);
    Ok(())
}

/// Switches a schedule on.
pub fn enable(store: &mut Store, id: &str) -> (r: Result<()>)
    requires
        old(store).wf(),
    ensures
        final(store).wf(),
        r is Ok,
        *final(store) == (Store { schedules: final(store).schedules, ..*old(store) }),
        final(store).schedules@ == with_enabled(old(store).schedules@, id@, true),
{
    set_enabled(store, id, true);
    Ok(())
}

/// Removes a schedule.
pub fn remove(store: &mut Store, id: &str) -> (r: Result<()>)
    requires
        old(store).wf(),
    ensures
        final(store).wf(),
        r is Ok,
        *final(store) == (Store { schedules: final(store).schedules, ..*old(store) }),
        final(store).schedules@ == old(store).schedules@.remove(id@),
{
    let _: Option<Schedule> = store.schedules.remove(&id.to_owned());
    Ok(())
}

/// Whether `found` are copies of the first `limit` schedules, of all or of those that are due, by
/// the time at which they are to fire next. Of two that are to fire at the same time either may come
/// first.
pub open spec fn schedules_listed(
    schedules: Map<Seq<char>, Schedule>,
    due_at: Option<Timestamp>,
    limit: int,
    found: Seq<Schedule>,
) -> bool {
    &&& found.len() <= limit
    &&& forall|k: int|
        0 <= k < found.len() ==> listed_from(schedules, due_at, #[trigger] found[k])
    &&& forall|j: int, k: int|
        0 <= j < k < found.len() ==> (#[trigger] found[j]).next_fire <= (
        #[trigger] found[k]).next_fire && found[j].id@ != found[k].id@
    &&& forall|id: Seq<char>| #[trigger]
        schedules.contains_key(id) && is_wanted(schedules[id], due_at) ==> lists_schedule(
            found,
            id,
        ) || (found.len() == limit && forall|k: int|
            0 <= k < found.len() ==> (#[trigger] found[k]).next_fire <= schedules[id].next_fire)
}

/// Whether a schedule is asked for.
pub open spec fn is_wanted(schedule: Schedule, due_at: Option<Timestamp>) -> bool {
    match due_at {
        Some(now) => schedule.due(now),
        None => true,
    }
}

/// Whether a schedule is a copy of one in the table that is asked for.
pub open spec fn listed_from(
    schedules: Map<Seq<char>, Schedule>,
    due_at: Option<Timestamp>,
    schedule: Schedule,
) -> bool {
    &&& schedules.contains_key(schedule.id@)
    &&& schedule.same(schedules[schedule.id@])
    &&& is_wanted(schedule, due_at)
}

/// Whether a schedule is among those listed.
pub open spec fn lists_schedule(found: Seq<Schedule>, id: Seq<char>) -> bool {
    exists|k: int| 0 <= k < found.len() && (#[trigger] found[k]).id@ == id
}

/// The place of each schedule in the order in which they fire, if it is asked for.
spec fn fire_ranks(
    schedules: Dict<String, Schedule>,
    due_at: Option<Timestamp>,
) -> Seq<Option<Rank>> {
    Seq::new(
        schedules.size(),
        |i: int|
            {
                let schedule = schedules@[schedules.key(i)];
                if is_wanted(schedule, due_at) {
                    Some((schedule.next_fire as i128, 0i128))
                } else {
                    None
                }
            },
    )
}

/// Whether a schedule is a copy of the entry at a position.
spec fn copies_entry(schedules: Dict<String, Schedule>, place: int, schedule: Schedule) -> bool {
    &&& schedules@.contains_key(schedules.key(place))
    &&& schedule.same(schedules@[schedules.key(place)])
}

fn select_schedules(store: &Store, due_at: Option<Timestamp>, limit: i128) -> (r: Vec<Schedule>)
    requires
        store.wf(),
        limit >= 0,
    ensures
        schedules_listed(store.schedules@, due_at, limit as int, r@),
{
    let n: usize = store.schedules.len();
    let mut ranks: Vec<Option<Rank>> = Vec::new();
    let mut i: usize = 0;
    while i < n
        invariant
            store.wf(),
            n == store.schedules.size(),
            i <= n,
            ranks.len() == i,
            forall|j: int|
                0 <= j < i ==> (#[trigger] ranks@[j]) == fire_ranks(store.schedules, due_at)[j],
        decreases n - i,
    {
        let schedule: &Schedule = store.schedules.value_at(i);
        let wanted: bool = match due_at {
            Some(now) => schedule.enabled && schedule.next_fire <= now,
            None => true,
        };
        let rank: Option<Rank> = if wanted {
            Some((schedule.next_fire as i128, 0))
        } else {
            None
        };
        ranks.push(rank);
        i = i + 1;
    }
    let ghost all = fire_ranks(store.schedules, due_at);
    assert(ranks@ =~= all);
    let places: Vec<usize> = choose_first(&ranks, limit);
    let mut found: Vec<Schedule> = Vec::new();
    let count: usize = places.len();
    let mut k: usize = 0;
    while k < count
        invariant
            store.wf(),
            n == store.schedules.size(),
            count == places.len(),
            k <= count,
            found.len() == k,
            all == fire_ranks(store.schedules, due_at),
            first_ranked(all, places@, limit as int),
            forall|j: int|
                0 <= j < k ==> copies_entry(
                    store.schedules,
                    places@[j] as int,
                    #[trigger] found@[j],
                ),
        decreases count - k,
    {
        let place: usize = places[k];
        assert(place < n);
        let schedule: &Schedule = store.schedules.value_at(place);
        let copy: Schedule = schedule.clone();
        let ghost held = found@;
        found.push(copy);
        proof {
            assert(places@[k as int] == place);
            assert(copies_entry(store.schedules, place as int, copy));
            assert forall|j: int| 0 <= j < k + 1 implies copies_entry(
                store.schedules,
                places@[j] as int,
                #[trigger] found@[j],
            ) by {
                if j < k {
                    assert(found@[j] == held[j]);
                }
            }
        }
        k = k + 1;
    }
    proof {
        let schedules = store.schedules;
        assert forall|j: int| 0 <= j < found@.len() implies listed_from(
            schedules@,
            due_at,
            #[trigger] found@[j],
        ) by {
            assert(all[places@[j] as int] is Some);
        }
        assert forall|j: int, k: int| 0 <= j < k < found@.len() implies (
        #[trigger] found@[j]).next_fire <= (#[trigger] found@[k]).next_fire && found@[j].id@
            != found@[k].id@ by {
            let a = places@[j];
            let b = places@[k];
            assert(rank_le(all[places@[j] as int]->0, all[places@[k] as int]->0));
            assert(a != b);
            schedules.lemma_distinct(a as int, b as int);
        }
        assert forall|id: Seq<char>| #[trigger]
            schedules@.contains_key(id) && is_wanted(schedules@[id], due_at) implies lists_schedule(
            found@,
            id,
        ) || (found@.len() == limit && forall|k: int|
            0 <= k < found@.len() ==> (#[trigger] found@[k]).next_fire
                <= schedules@[id].next_fire) by {
            let at = schedules.lemma_key(id);
            assert(all[at] is Some);
            assert(at as usize as int == at);
            if places@.contains(at as usize) {
                let k = places@.index_of(at as usize);
                assert(found@[k].id@ == id);
            } else {
                assert forall|k: int| 0 <= k < found@.len() implies (#[trigger] found@[k]).next_fire
                    <= schedules@[id].next_fire by {
                    assert(rank_le(all[places@[k] as int]->0, all[at]->0));
                }
            }
        }
    }
    found
}

/// All schedules, by the time at which they are to fire next.
pub fn list(store: &Store) -> (r: Result<Vec<Schedule>>)
    requires
        store.wf(),
    ensures
        r is Ok,
        schedules_listed(store.schedules@, None, r->Ok_0@.len() as int, r->Ok_0@),
        forall|id: Seq<char>| #[trigger]
            store.schedules@.contains_key(id) ==> lists_schedule(r->Ok_0@, id),
{
    let n: usize = store.schedules.len();
    let limit: i128 = n as i128 + 1;
    let found: Vec<Schedule> = select_schedules(store, None, limit);
    proof {
        lemma_listed_size(store.schedules, found@);
    }
    Ok(found)
}

/// No more schedules are listed than there are.
proof fn lemma_listed_size(schedules: Dict<String, Schedule>, found: Seq<Schedule>)
    requires
        schedules.wf(),
        forall|k: int|
            0 <= k < found.len() ==> schedules@.contains_key((#[trigger] found[k]).id@),
        forall|j: int, k: int|
            0 <= j < k < found.len() ==> (#[trigger] found[j]).id@ != (#[trigger] found[k]).id@,
    ensures
        found.len() <= schedules.size(),
{
    let at = Seq::new(found.len(), |k: int| position_of(schedules, found[k].id@));
    assert forall|k: int| 0 <= k < at.len() implies 0 <= #[trigger] at[k] < schedules.size()
        && schedules.key(at[k]) == found[k].id@ by {
        let i = schedules.lemma_key(found[k].id@);
        assert(0 <= i < schedules.size() && schedules.key(i) == found[k].id@);
    }
    assert(at.no_duplicates());
    crate::ranking::lemma_distinct_below(at, schedules.size());
}

spec fn position_of(schedules: Dict<String, Schedule>, id: Seq<char>) -> int {
    choose|i: int| 0 <= i < schedules.size() && schedules.key(i) == id
}

/// The deduplication key of a firing: the same within a minute, so that a schedule fires no more
/// than once in it.
pub open spec fn firing_key(id: Seq<char>, clock: Timestamp) -> Seq<char> {
    "sched:"@ + id + ":"@ + time_text(clock as int / 60_000_000, MINUTE_PATTERN@)
}

/// The deduplication key of a firing. Those of different minutes differ.
pub fn make_firing_key(id: &str, clock: Timestamp) -> (r: String)
    requires
        MIN_TIMESTAMP <= clock <= MAX_TIMESTAMP,
    ensures
        r@ == firing_key(id@, clock),
        forall|other: Timestamp|
            MIN_TIMESTAMP <= other <= MAX_TIMESTAMP && other as int / 60_000_000 != clock as int
                / 60_000_000 ==> r@ != #[trigger] firing_key(id@, other),
{
    let stamp: String = format_time(clock, MINUTE_PATTERN);
    let r: String = "sched:".to_owned().concat(id).concat(":").concat(stamp.as_str());
    proof {
        let head = "sched:"@ + id@ + ":"@;
        assert forall|other: Timestamp|
            MIN_TIMESTAMP <= other <= MAX_TIMESTAMP && other as int / 60_000_000 != clock as int
                / 60_000_000 implies r@ != #[trigger] firing_key(id@, other) by {
            let there = time_text(other as int / 60_000_000, MINUTE_PATTERN@);
            if r@ == firing_key(id@, other) {
                assert(r@.skip(head.len() as int) =~= stamp@);
                assert((head + there).skip(head.len() as int) =~= there);
            }
        }
    }
    r
}

/// When a schedule fires after it has fired. One that cannot be read fires in an hour.
pub open spec fn following_fire(cron: Seq<char>, clock: Timestamp) -> int {
    match schedule_reading(cron) {
        Ok(interval) => clock + interval.secs() * 1_000_000,
        Err(_) => clock + 3_600_000_000,
    }
}

/// Whether the calendar covers the time at which a schedule fires after it has fired.
pub open spec fn fire_fits(cron: Seq<char>, clock: Timestamp) -> bool {
    MIN_TIMESTAMP <= following_fire(cron, clock) <= MAX_TIMESTAMP
}

/// The interval after which a schedule fires again.
fn interval_of(cron: &str) -> (r: Interval)
    ensures
        forall|clock: Timestamp| #[trigger]
            following_fire(cron@, clock) == clock + r.secs() * 1_000_000,
{
    match read_schedule(cron) {
        Ok(interval) => interval,
        Err(_) => Interval { count: 1, unit: Unit::Hour },
    }
}

/// When a schedule fires after it has fired. `None` where the calendar ends before that.
pub fn next_fire_or_hour(cron: &str, clock: Timestamp) -> (r: Option<Timestamp>)
    requires
        MIN_TIMESTAMP <= clock <= MAX_TIMESTAMP,
    ensures
        r is Some <==> fire_fits(cron@, clock),
        r matches Some(next) ==> next == following_fire(cron@, clock),
{
    let interval: Interval = interval_of(cron);
    assert(following_fire(cron@, clock) == clock + interval.secs() * 1_000_000);
    if interval.fits_after(clock) {
        Some(interval.after(clock))
    } else {
        None
    }
}

/// Whether a row is the task that a schedule fires.
pub open spec fn is_firing(
    row: OutboxRow,
    schedule: Schedule,
    id: i64,
    now: Timestamp,
    clock: Timestamp,
) -> bool {
    &&& row.id == id
    &&& row.kind is Task
    &&& row.key@ == schedule.queue@
    &&& row.dedup_key is Some
    &&& row.dedup_key->0@ == firing_key(schedule.id@, clock)
    &&& row.payload@ == schedule.payload@
    &&& row.metadata@ == JsonView::Object(Seq::empty())
    &&& row.status is Pending
    &&& row.attempts == 0
    &&& row.max_retries == schedule.max_retries
    &&& row.priority == schedule.priority
    &&& row.progress == 0
    &&& row.visible_at == now
    &&& row.created_at == now
    &&& row.delivered_at is None
}

/// The table of schedules after one of them has fired.
pub open spec fn with_fired(
    schedules: Map<Seq<char>, Schedule>,
    schedule: Schedule,
    now: Timestamp,
    clock: Timestamp,
) -> Map<Seq<char>, Schedule> {
    let id = schedule.id@;
    if schedules.contains_key(id) {
        schedules.insert(
            id,
            Schedule {
                last_fired: Some(now),
                next_fire: following_fire(schedule.cron@, clock) as i64,
                ..schedules[id]
            },
        )
    } else {
        schedules
    }
}

/// Whether a schedule has fired: its task is submitted, unless one of the same minute is still to
/// be worked off, and the next firing is set.
pub open spec fn fired(before: Store, after: Store, schedule: Schedule, clock: Timestamp) -> bool {
    &&& before.next_id < i64::MAX
    &&& after == (Store {
        next_id: (before.next_id + 1) as i64,
        outbox: after.outbox,
        schedules: after.schedules,
        ..before
    })
    &&& if holds_dedup(before.outbox@, firing_key(schedule.id@, clock)) {
        after.outbox@ == before.outbox@
    } else {
        &&& after.outbox@.len() == before.outbox@.len() + 1
        &&& after.outbox@ == before.outbox@.push(after.outbox@.last())
        &&& is_firing(after.outbox@.last(), schedule, before.next_id, before.now, clock)
    }
    &&& after.schedules@ == with_fired(before.schedules@, schedule, before.now, clock)
}

/// Fires a schedule, given the time of the system's clock and that of the firing after. Hands out
/// whether a task was submitted.
fn fire(store: &mut Store, schedule: &Schedule, clock: Timestamp, next_fire: Timestamp) -> (r:
    Result<bool>)
    requires
        old(store).wf(),
        MIN_TIMESTAMP <= clock <= MAX_TIMESTAMP,
        next_fire == following_fire(schedule.cron@, clock),
    ensures
        final(store).wf(),
        match r {
            Ok(submitted) => fired(*old(store), *final(store), *schedule, clock) && submitted
                == !holds_dedup(old(store).outbox@, firing_key(schedule.id@, clock)),
            Err(e) => old(store).next_id == i64::MAX && e == StrunkError::Database(
                DbError::OutOfRange,
            ) && *final(store) == *old(store),
        },
{
    if store.next_id == i64::MAX {
        return Err(StrunkError::Database(DbError::OutOfRange));
    }
    let now: Timestamp = store.now;
    let id: i64 = store.next_id;
    store.next_id = id + 1;
    let key: Option<String> = Some(make_firing_key(schedule.id.as_str(), clock));
    let taken: bool = is_dedup_taken(&store.outbox, &key);
    let ghost before = store.outbox@;
    if !taken {
        let row: OutboxRow = OutboxRow {
            id,
            kind: MessageKind::Task,
            key: schedule.queue.clone(),
            dedup_key: key,
            payload: schedule.payload.clone(),
            metadata: Json::empty_object(),
            status: MessageStatus::Pending,
            attempts: 0,
            max_retries: schedule.max_retries,
            priority: schedule.priority,
            progress: 0,
            visible_at: now,
            created_at: now,
            delivered_at: None,
        };
        store.outbox.push(row);
        proof {
            let after = store.outbox@;
            assert forall|i: int, j: int|
                #![trigger after[i], after[j]]
                0 <= i < j < after.len() && is_active(after[i]) && is_active(
                    after[j],
                ) implies !same_dedup(after[i], after[j]) by {
                if j == before.len() && same_dedup(after[i], after[j]) {
                    assert(is_active(before[i]) && has_dedup(before[i], key->0@));
                }
            }
            assert(is_firing(after.last(), *schedule, id, now, clock));
        }
    }
    if let Some(row) = store.schedules.remove(&schedule.id) {
        store.schedules.insert(
            schedule.id.clone(),
            Schedule { last_fired: Some(now), next_fire, ..row },
        );
    }
    assert(store.schedules@ =~= with_fired(old(store).schedules@, *schedule, now, clock));
    Ok(!taken)
}

/// Whether the schedules have fired one after the other, the stores being those between.
pub open spec fn fired_in_turn(
    stores: Seq<Store>,
    schedules: Seq<Schedule>,
    clock: Timestamp,
) -> bool {
    &&& stores.len() == schedules.len() + 1
    &&& forall|i: int|
        0 <= i < schedules.len() ==> fired(
            stores[i],
            stores[i + 1],
            #[trigger] schedules[i],
            clock,
        )
}

/// Whether the schedules have fired, or those before the one for which no identifier was left.
pub open spec fn all_fired(
    before: Store,
    after: Store,
    r: Result<u64>,
    due: Seq<Schedule>,
    clock: Timestamp,
) -> bool {
    exists|stores: Seq<Store>, count: int|
        {
            &&& 0 <= count <= due.len()
            &&& #[trigger] fired_in_turn(stores, due.take(count), clock)
            &&& stores[0] == before
            &&& stores.last() == after
            &&& match r {
                Ok(submitted) => count == due.len() && submitted == after.outbox@.len()
                    - before.outbox@.len(),
                Err(e) => count < due.len() && after.next_id == i64::MAX && e
                    == StrunkError::Database(DbError::OutOfRange),
            }
        }
}

/// Whether the calendar covers the next firing of all these schedules.
pub open spec fn all_fit(due: Seq<Schedule>, clock: Timestamp) -> bool {
    forall|k: int| 0 <= k < due.len() ==> fire_fits((#[trigger] due[k]).cron@, clock)
}

/// Whether the schedules have fired at a time of the clock. None does where the calendar ends before
/// the next firing of one of them.
pub open spec fn fired_at(
    before: Store,
    after: Store,
    r: Result<Option<u64>>,
    due: Seq<Schedule>,
    clock: Timestamp,
) -> bool {
    match r {
        Ok(None) => !all_fit(due, clock) && after == before,
        Ok(Some(submitted)) => all_fit(due, clock) && all_fired(
            before,
            after,
            Ok(submitted),
            due,
            clock,
        ),
        Err(e) => all_fit(due, clock) && all_fired(before, after, Err(e), due, clock),
    }
}

/// Whether the schedules that were due, the first hundred of them at most, have fired at a time of
/// the clock.
pub open spec fn ticked(
    before: Store,
    after: Store,
    r: Result<Option<u64>>,
    clock: Timestamp,
) -> bool {
    exists|due: Seq<Schedule>|
        schedules_listed(before.schedules@, Some(before.now), 100, due) && #[trigger] fired_at(
            before,
            after,
            r,
            due,
            clock,
        )
}

/// When each of these schedules fires after it has fired. `None` where the calendar does not cover
/// one of these times.
fn following_fires(due: &Vec<Schedule>, clock: Timestamp) -> (r: Option<Vec<Timestamp>>)
    requires
        MIN_TIMESTAMP <= clock <= MAX_TIMESTAMP,
    ensures
        r is Some <==> all_fit(due@, clock),
        r matches Some(times) ==> times.len() == due.len() && forall|k: int|
            0 <= k < due.len() ==> #[trigger] times@[k] == following_fire(due@[k].cron@, clock),
{
    let mut times: Vec<Timestamp> = Vec::new();
    let n: usize = due.len();
    let mut i: usize = 0;
    while i < n
        invariant
            MIN_TIMESTAMP <= clock <= MAX_TIMESTAMP,
            n == due.len(),
            i <= n,
            times.len() == i,
            forall|k: int|
                0 <= k < i ==> #[trigger] times@[k] == following_fire(due@[k].cron@, clock),
            forall|k: int| 0 <= k < i ==> fire_fits((#[trigger] due@[k]).cron@, clock),
        decreases n - i,
    {
        match next_fire_or_hour(due[i].cron.as_str(), clock) {
            Some(next) => times.push(next),
            None => {
                assert(!fire_fits(due@[i as int].cron@, clock));
                return None;
            },
        }
        i = i + 1;
    }
    Some(times)
}

/// Fires schedules, given the time of the system's clock. Hands out how many tasks were submitted,
/// or `None` if nothing was done because the calendar ends before the next firing of one of them.
pub fn fire_all(store: &mut Store, due: &Vec<Schedule>, clock: Timestamp) -> (r: Result<
    Option<u64>,
>)
    requires
        old(store).wf(),
        MIN_TIMESTAMP <= clock <= MAX_TIMESTAMP,
    ensures
        final(store).wf(),
        fired_at(*old(store), *final(store), r, due@, clock),
{
    let times: Vec<Timestamp> = match following_fires(due, clock) {
        Some(times) => times,
        None => return Ok(None),
    };
    let n: usize = due.len();
    let ghost mut stores: Seq<Store> = seq![*store];
    let mut submitted: u64 = 0;
    let mut i: usize = 0;
    assert(due@.take(0) =~= Seq::<Schedule>::empty());
    while i < n
        invariant
            n == due.len(),
            n == times.len(),
            i <= n,
            store.wf(),
            MIN_TIMESTAMP <= clock <= MAX_TIMESTAMP,
            all_fit(due@, clock),
            forall|k: int|
                0 <= k < n ==> #[trigger] times@[k] == following_fire(due@[k].cron@, clock),
            fired_in_turn(stores, due@.take(i as int), clock),
            stores[0] == *old(store),
            stores.last() == *store,
            submitted <= i,
            submitted == store.outbox@.len() - old(store).outbox@.len(),
        decreases n - i,
    {
        match fire(store, &due[i], clock, times[i]) {
            Ok(new) => {
                if new {
                    submitted = submitted + 1;
                }
                proof {
                    let done = due@.take(i as int);
                    let next = due@.take(i + 1);
                    let longer = stores.push(*store);
                    assert(next =~= done.push(due@[i as int]));
                    assert forall|k: int| 0 <= k < next.len() implies fired(
                        longer[k],
                        longer[k + 1],
                        #[trigger] next[k],
                        clock,
                    ) by {
                        if k < i {
                            assert(next[k] == done[k]);
                        }
                    }
                    stores = longer;
                }
            },
            Err(e) => {
                assert(fired_in_turn(stores, due@.take(i as int), clock));
                return Err(e);
            },
        }
        i = i + 1;
    }
    assert(fired_in_turn(stores, due@.take(n as int), clock));
    Ok(Some(submitted))
}

/// The schedules that are due, the first hundred of them at most.
pub fn due_schedules(store: &Store) -> (r: Vec<Schedule>)
    requires
        store.wf(),
    ensures
        schedules_listed(store.schedules@, Some(store.now), 100, r@),
{
    select_schedules(store, Some(store.now), 100)
}

/// Fires the schedules that are due, the first hundred of them at most, given the time of the
/// system's clock. Hands out how many tasks were submitted, or `None` if nothing was done because the
/// calendar ends before the next firing of one of them.
pub fn tick_at(store: &mut Store, clock: Timestamp) -> (r: Result<Option<u64>>)
    requires
        old(store).wf(),
        MIN_TIMESTAMP <= clock <= MAX_TIMESTAMP,
    ensures
        final(store).wf(),
        ticked(*old(store), *final(store), r, clock),
{
    let due: Vec<Schedule> = due_schedules(store);
    let r: Result<Option<u64>> = fire_all(store, &due, clock);
    assert(fired_at(*old(store), *store, r, due@, clock));
    r
}

/// Fires the schedules that are due, by the system's clock.
pub fn tick(store: &mut Store) -> (r: Result<Option<u64>>)
    requires
        old(store).wf(),
    ensures
        final(store).wf(),
        exists|clock: Timestamp|
            0 <= clock <= MAX_TIMESTAMP && #[trigger] ticked(*old(store), *final(store), r, clock),
{
    let clock: Timestamp = utc_now();
    tick_at(store, clock)
}

/// How the scheduler goes about its work.
#[derive(Debug)]
pub struct Scheduler {
    /// How long the scheduler waits between two rounds.
    pub interval: Span,
}

impl Scheduler {
    pub fn new() -> (r: Scheduler)
        ensures
            r.interval.micros == 30_000_000,
    {
        Scheduler { interval: Span::from_secs(30) }
    }

    pub fn interval(self, interval: Span) -> (r: Scheduler)
        ensures
            r == (Scheduler { interval }),
    {
        Scheduler { interval }
    }
}

} // verus!
