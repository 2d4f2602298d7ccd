//! What schedule expressions say, and when and how often schedules fire.
use vstd::prelude::*;

use crate::cron::{
    duration_reading, interval_reading, next_fire_told, reports, reports_secs, schedule_reading,
};
use crate::error::{DbError, Result, StrunkError};
use crate::json::JsonView;
use crate::number::i64_of;
use crate::scheduler::{
    all_fired, all_fit, fired, fired_at, fired_in_turn, firing_key, registered_at,
    schedules_listed, ticked, with_enabled, Schedule, ScheduleBuilder,
};
use crate::store::Store;
use crate::text::{has_prefix, is_blank, is_one_word, is_space, trimmed};
use crate::text_laws::{only_digits_are_a_number, trimming_takes_the_ends};
use crate::time::{
    time_text, Interval, Timestamp, MAX_TIMESTAMP, MINUTE_PATTERN, MIN_TIMESTAMP,
};

verus! {

/// A whole number, however large, and a unit behind it are that many seconds, minutes, hours or days;
/// without a unit they are seconds. Whitespace around the number and around the whole does not
/// matter.
pub proof fn number_and_unit_are_a_duration(
    left: Seq<char>,
    s: Seq<char>,
    gap: Seq<char>,
    right: Seq<char>,
    n: i64,
)
    requires
        i64_of(s) == Some(n),
        is_blank(left),
        is_blank(gap),
        is_blank(right),
    ensures
        ({
            let in_seconds = duration_reading(left + (s + gap).push('s') + right);
            let in_minutes = duration_reading(left + (s + gap).push('m') + right);
            let in_hours = duration_reading(left + (s + gap).push('h') + right);
            let in_days = duration_reading(left + (s + gap).push('d') + right);
            let plain = duration_reading(left + s + right);
            &&& in_seconds is Ok && in_seconds->Ok_0.secs() == n
            &&& in_minutes is Ok && in_minutes->Ok_0.secs() == n * 60
            &&& in_hours is Ok && in_hours->Ok_0.secs() == n * 3_600
            &&& in_days is Ok && in_days->Ok_0.secs() == n * 86_400
            &&& plain is Ok && plain->Ok_0.secs() == n
        }),
{
    lemma_number_ends(s, n);
    lemma_with_unit(left, s, gap, 's', right);
    lemma_with_unit(left, s, gap, 'm', right);
    lemma_with_unit(left, s, gap, 'h', right);
    lemma_with_unit(left, s, gap, 'd', right);
    trimming_takes_the_ends(left, s, right);
}

proof fn lemma_number_ends(s: Seq<char>, n: i64)
    requires
        i64_of(s) == Some(n),
    ensures
        s.len() > 0,
        !is_space(s[0]),
        !is_space(s.last()),
        '0' <= s.last() <= '9',
        s[0] == '-' || s[0] == '+' || '0' <= s[0] <= '9',
{
    only_digits_are_a_number(s);
    let digits = if s.len() > 0 && (s[0] == '-' || s[0] == '+') {
        s.skip(1)
    } else {
        s
    };
    assert(digits[digits.len() - 1] == s.last());
    assert('0' <= digits[0] <= '9');
}

proof fn lemma_with_unit(
    left: Seq<char>,
    s: Seq<char>,
    gap: Seq<char>,
    unit: char,
    right: Seq<char>,
)
    requires
        s.len() > 0,
        !is_space(s[0]),
        !is_space(s.last()),
        is_blank(left),
        is_blank(gap),
        is_blank(right),
        !is_space(unit),
    ensures
        trimmed(left + (s + gap).push(unit) + right) == (s + gap).push(unit),
        (s + gap).push(unit).drop_last() == s + gap,
        (s + gap).push(unit).last() == unit,
        trimmed(s + gap) == s,
{
    let t = (s + gap).push(unit);
    assert(t[0] == s[0]);
    trimming_takes_the_ends(left, t, right);
    assert(t.drop_last() =~= s + gap);
    let nothing = Seq::<char>::empty();
    trimming_takes_the_ends(nothing, s, gap);
    assert(nothing + s + gap =~= s + gap);
}

/// Nothing else is a duration: what is read is a whole number, or a whole number and one of the
/// letters `s`, `m`, `h` and `d`.
pub proof fn only_numbers_and_units_are_durations(d: Seq<char>)
    requires
        duration_reading(d) is Ok,
    ensures
        ({
            let t = trimmed(d);
            let secs = duration_reading(d)->Ok_0.secs();
            ||| i64_of(t) matches Some(n) && secs == n
            ||| t.len() > 0 && (i64_of(trimmed(t.drop_last())) matches Some(n) && {
                ||| t.last() == 's' && secs == n
                ||| t.last() == 'm' && secs == n * 60
                ||| t.last() == 'h' && secs == n * 3_600
                ||| t.last() == 'd' && secs == n * 86_400
            })
        }),
{
}

/// A duration is an interval as it stands, and behind `every` or `@every`.
pub proof fn durations_are_intervals(s: Seq<char>, gap: Seq<char>, unit: char, n: i64)
    requires
        i64_of(s) == Some(n),
        is_blank(gap),
        unit == 's' || unit == 'm' || unit == 'h' || unit == 'd',
    ensures
        ({
            let d = (s + gap).push(unit);
            let secs = if unit == 's' {
                n as int
            } else if unit == 'm' {
                n * 60
            } else if unit == 'h' {
                n * 3_600
            } else {
                n * 86_400
            };
            let plain = interval_reading(d);
            let every = interval_reading("every "@ + d);
            let at_every = interval_reading("@every "@ + d);
            &&& plain is Ok && plain->Ok_0.secs() == secs
            &&& every is Ok && every->Ok_0.secs() == secs
            &&& at_every is Ok && at_every->Ok_0.secs() == secs
        }),
{
    let d = (s + gap).push(unit);
    let nothing = Seq::<char>::empty();
    assert(nothing + d + nothing =~= d);
    number_and_unit_are_a_duration(nothing, s, gap, nothing, n);
    lemma_number_ends(s, n);
    lemma_with_unit(nothing, s, gap, unit, nothing);
    assert(trimmed(d) == d);
    assert(d[0] == s[0]);
    assert(!is_blank(d));
    crate::cron::every_is_optional(d);
    reveal_strlit("every ");
    reveal_strlit("@every ");
    assert(!crate::text::has_prefix(d, "every "@)) by {
        if crate::text::has_prefix(d, "every "@) {
            assert(d.take(6)[0] == d[0]);
            assert("every "@[0] == 'e');
        }
    }
    assert(!crate::text::has_prefix(d, "@every "@)) by {
        if crate::text::has_prefix(d, "@every "@) {
            assert(d.take(7)[0] == d[0]);
            assert("@every "@[0] == '@');
        }
    }
}

/// The shorthands are an hour, a day, a week and thirty days, with whitespace around them or without.
/// No other word that starts with `@` is an interval.
pub proof fn shorthands_are_intervals(left: Seq<char>, right: Seq<char>, word: Seq<char>)
    requires
        is_blank(left),
        is_blank(right),
        word.len() > 0,
        word[0] == '@',
        forall|i: int| 0 <= i < word.len() ==> !is_space(#[trigger] word[i]),
    ensures
        ({
            let hourly = interval_reading(left + "@hourly"@ + right);
            let daily = interval_reading(left + "@daily"@ + right);
            let weekly = interval_reading(left + "@weekly"@ + right);
            let monthly = interval_reading(left + "@monthly"@ + right);
            &&& hourly is Ok && hourly->Ok_0.secs() == 3_600
            &&& daily is Ok && daily->Ok_0.secs() == 86_400
            &&& weekly is Ok && weekly->Ok_0.secs() == 604_800
            &&& monthly is Ok && monthly->Ok_0.secs() == 2_592_000
        }),
        word != "@hourly"@ && word != "@daily"@ && word != "@weekly"@ && word != "@monthly"@
            ==> interval_reading(left + word + right) is Err,
{
    reveal_strlit("@hourly");
    reveal_strlit("@daily");
    reveal_strlit("@weekly");
    reveal_strlit("@monthly");
    lemma_shorthand(left, "@hourly"@, right);
    lemma_shorthand(left, "@daily"@, right);
    lemma_shorthand(left, "@weekly"@, right);
    lemma_shorthand(left, "@monthly"@, right);
    lemma_shorthand(left, word, right);
    assert("@hourly"@.len() == 7 && "@daily"@.len() == 6 && "@weekly"@.len() == 7);
    assert("@monthly"@.len() == 8);
    assert("@hourly"@[1] == 'h' && "@weekly"@[1] == 'w');
}

proof fn lemma_shorthand(left: Seq<char>, word: Seq<char>, right: Seq<char>)
    requires
        is_blank(left),
        is_blank(right),
        word.len() > 0,
        word[0] == '@',
        forall|i: int| 0 <= i < word.len() ==> !is_space(#[trigger] word[i]),
    ensures
        trimmed(left + word + right) == word,
        !crate::text::has_prefix(word, "every "@),
        !crate::text::has_prefix(word, "@every "@),
{
    reveal_strlit("every ");
    reveal_strlit("@every ");
    assert(word.last() == word[word.len() - 1]);
    trimming_takes_the_ends(left, word, right);
    if crate::text::has_prefix(word, "every "@) {
        assert(word.take(6)[0] == word[0]);
        assert("every "@[0] == 'e');
    }
    if crate::text::has_prefix(word, "@every "@) {
        assert(word.take(7)[6] == word[6]);
        assert("@every "@[6] == ' ');
    }
}

/// A schedule can be read exactly when its expression is an interval, and then it is that interval.
pub proof fn schedules_are_intervals(s: Seq<char>)
    ensures
        schedule_reading(s) is Ok <==> interval_reading(s) is Ok,
        schedule_reading(s) is Ok ==> schedule_reading(s) == interval_reading(s),
{
}

/// The next firing lies so far from now as the expression says, if the calendar goes that far; where
/// it does not, there is none. It is refused exactly where the expression is.
pub proof fn next_fire_lies_an_interval_ahead(
    r: Result<Option<Timestamp>>,
    cron: Seq<char>,
    now: Timestamp,
)
    requires
        next_fire_told(r, cron, now),
    ensures
        r is Err <==> interval_reading(cron) is Err,
        r matches Ok(next) ==> {
            let at = now + interval_reading(cron)->Ok_0.secs() * 1_000_000;
            &&& next is Some <==> MIN_TIMESTAMP <= at <= MAX_TIMESTAMP
            &&& (next matches Some(next) ==> next == at)
        },
{
}

/// A schedule that is registered for the first time is switched on, has not fired, and is to fire an
/// interval from now. One that was there keeps its times, takes on the rest and is switched on. No
/// other schedule changes.
pub proof fn registered_schedule_stands_as_given(
    before: Store,
    after: Store,
    r: Result<bool>,
    builder: ScheduleBuilder,
    clock: Timestamp,
    other: Seq<char>,
)
    requires
        registered_at(before, after, r, builder, clock),
    ensures
        r is Err <==> interval_reading(builder.cron@) is Err,
        r matches Ok(entered) ==> {
            let at = clock + interval_reading(builder.cron@)->Ok_0.secs() * 1_000_000;
            let row = after.schedules@[builder.id@];
            &&& entered <==> MIN_TIMESTAMP <= at <= MAX_TIMESTAMP
            &&& entered ==> {
                &&& after.schedules@.contains_key(builder.id@)
                &&& row.id@ == builder.id@
                &&& row.queue@ == builder.queue@
                &&& row.payload@ == builder.payload@
                &&& row.cron@ == builder.cron@
                &&& row.max_retries == builder.max_retries
                &&& row.priority == builder.priority
                &&& row.enabled
                &&& !before.schedules@.contains_key(builder.id@) ==> row.last_fired is None
                    && row.next_fire == at
                &&& before.schedules@.contains_key(builder.id@) ==> row.last_fired
                    == before.schedules@[builder.id@].last_fired && row.next_fire
                    == before.schedules@[builder.id@].next_fire
            }
        },
        r != Result::<bool>::Ok(true) ==> after == before,
        other != builder.id@ ==> after.schedules@.contains_key(other)
            == before.schedules@.contains_key(other) && (before.schedules@.contains_key(other)
            ==> after.schedules@[other] == before.schedules@[other]),
        after.outbox == before.outbox,
{
}

/// Switching a schedule on or off changes nothing else of it, and no other schedule.
pub proof fn switching_changes_nothing_else(
    schedules: Map<Seq<char>, Schedule>,
    id: Seq<char>,
    enabled: bool,
    other: Seq<char>,
)
    ensures
        with_enabled(schedules, id, enabled).contains_key(other) == schedules.contains_key(other),
        schedules.contains_key(id) ==> with_enabled(schedules, id, enabled)[id] == (Schedule {
            enabled,
            ..schedules[id]
        }),
        other != id && schedules.contains_key(other) ==> with_enabled(schedules, id, enabled)[other]
            == schedules[other],
{
}

/// What is listed as due are schedules that are switched on and whose time has come, each once and as
/// it stands in the table, those first that were to fire first. As long as there is room, none of
/// them is left out.
pub proof fn due_schedules_are_those_whose_time_has_come(
    schedules: Map<Seq<char>, Schedule>,
    now: Timestamp,
    limit: int,
    found: Seq<Schedule>,
    id: Seq<char>,
    j: int,
    k: int,
)
    requires
        schedules_listed(schedules, Some(now), limit, found),
    ensures
        found.len() <= limit,
        0 <= k < found.len() ==> {
            &&& schedules.contains_key(found[k].id@)
            &&& found[k].enabled
            &&& found[k].next_fire <= now
            &&& found[k].queue@ == schedules[found[k].id@].queue@
            &&& found[k].payload@ == schedules[found[k].id@].payload@
            &&& found[k].cron@ == schedules[found[k].id@].cron@
            &&& found[k].max_retries == schedules[found[k].id@].max_retries
            &&& found[k].priority == schedules[found[k].id@].priority
            &&& schedules[found[k].id@].enabled
            &&& found[k].next_fire == schedules[found[k].id@].next_fire
        },
        0 <= j < k < found.len() ==> found[j].next_fire <= found[k].next_fire && found[j].id@
            != found[k].id@,
        schedules.contains_key(id) && schedules[id].enabled && schedules[id].next_fire <= now && (
        found.len() < limit || (0 <= k < found.len() && schedules[id].next_fire
            < found[k].next_fire)) ==> exists|i: int|
            0 <= i < found.len() && (#[trigger] found[i]).id@ == id,
{
    if 0 <= k < found.len() {
        assert(crate::scheduler::listed_from(schedules, Some(now), found[k]));
    }
    if 0 <= j < k < found.len() {
        assert(found[j].next_fire <= found[k].next_fire);
    }
    if schedules.contains_key(id) && schedules[id].enabled && schedules[id].next_fire <= now {
        assert(crate::scheduler::is_wanted(schedules[id], Some(now)));
        if crate::scheduler::lists_schedule(found, id) {
            let i = choose|i: int| 0 <= i < found.len() && (#[trigger] found[i]).id@ == id;
            assert(found[i].id@ == id);
        }
    }
}

/// The list of all schedules holds each of them once, whether it is switched on or not, those first
/// that are to fire first.
pub proof fn all_schedules_are_listed(
    schedules: Map<Seq<char>, Schedule>,
    found: Seq<Schedule>,
    j: int,
    k: int,
)
    requires
        schedules_listed(schedules, None, found.len() as int, found),
    ensures
        0 <= k < found.len() ==> {
            &&& schedules.contains_key(found[k].id@)
            &&& found[k].enabled == schedules[found[k].id@].enabled
            &&& found[k].last_fired == schedules[found[k].id@].last_fired
            &&& found[k].next_fire == schedules[found[k].id@].next_fire
            &&& found[k].cron@ == schedules[found[k].id@].cron@
            &&& found[k].queue@ == schedules[found[k].id@].queue@
            &&& found[k].payload@ == schedules[found[k].id@].payload@
            &&& found[k].max_retries == schedules[found[k].id@].max_retries
            &&& found[k].priority == schedules[found[k].id@].priority
        },
        0 <= j < k < found.len() ==> found[j].next_fire <= found[k].next_fire && found[j].id@
            != found[k].id@,
{
    if 0 <= k < found.len() {
        assert(crate::scheduler::listed_from(schedules, None, found[k]));
    }
    if 0 <= j < k < found.len() {
        assert(found[j].next_fire <= found[k].next_fire);
    }
}

/// A schedule that fires submits one task: for its queue, with its payload, limit and priority,
/// pending from now on, under a deduplication key that names the schedule and the minute. It submits
/// none where a row that is pending or claimed has that key. Either way it is entered that it fired
/// now, and it is to fire an interval later; where its expression cannot be read, an hour later.
pub proof fn firing_submits_one_task(
    before: Store,
    after: Store,
    schedule: Schedule,
    clock: Timestamp,
    other: Seq<char>,
)
    requires
        fired(before, after, schedule, clock),
        ({
            let at = clock + (match interval_reading(schedule.cron@) {
                Ok(interval) => interval.secs(),
                Err(_) => 3_600,
            }) * 1_000_000;
            i64::MIN <= at <= i64::MAX
        }),
    ensures
        ({
            let key = "sched:"@ + schedule.id@ + ":"@ + time_text(
                clock as int / 60_000_000,
                MINUTE_PATTERN@,
            );
            let taken = exists|i: int|
                {
                    &&& 0 <= i < before.outbox@.len()
                    &&& (#[trigger] before.outbox@[i]).status is Pending
                        || before.outbox@[i].status is Claimed
                    &&& before.outbox@[i].dedup_key is Some
                    &&& before.outbox@[i].dedup_key->0@ == key
                };
            let row = after.outbox@.last();
            &&& taken ==> after.outbox@ == before.outbox@
            &&& !taken ==> {
                &&& after.outbox@.len() == before.outbox@.len() + 1
                &&& after.outbox@.drop_last() == before.outbox@
                &&& row.id == before.next_id
                &&& row.kind is Task
                &&& row.key@ == schedule.queue@
                &&& row.dedup_key is Some && row.dedup_key->0@ == key
                &&& row.payload@ == schedule.payload@
                &&& row.metadata@ == JsonView::Object(Seq::empty())
                &&& row.status is Pending
                &&& row.attempts == 0
                &&& row.max_retries == schedule.max_retries
                &&& row.priority == schedule.priority
                &&& row.progress == 0
                &&& row.visible_at == before.now
                &&& row.created_at == before.now
                &&& row.delivered_at is None
            }
        }),
        before.schedules@.contains_key(schedule.id@) ==> after.schedules@.contains_key(schedule.id@)
            && after.schedules@[schedule.id@] == (Schedule {
            last_fired: Some(before.now),
            next_fire: (clock + (match interval_reading(schedule.cron@) {
                Ok(interval) => interval.secs(),
                Err(_) => 3_600,
            }) * 1_000_000) as i64,
            ..before.schedules@[schedule.id@]
        }),
        other != schedule.id@ ==> after.schedules@.contains_key(other)
            == before.schedules@.contains_key(other) && (before.schedules@.contains_key(other)
            ==> after.schedules@[other] == before.schedules@[other]),
{
    let key = firing_key(schedule.id@, clock);
    let rows = before.outbox@;
    if crate::outbox::holds_dedup(rows, key) {
        let i = choose|i: int|
            0 <= i < rows.len() && crate::outbox::is_active(#[trigger] rows[i])
                && crate::outbox::has_dedup(rows[i], key);
        assert(crate::outbox::is_active(rows[i]));
    } else {
        assert forall|i: int|
            0 <= i < rows.len() && ((#[trigger] rows[i]).status is Pending
                || rows[i].status is Claimed) && rows[i].dedup_key is Some implies rows[i].dedup_key->0@
            != key by {
            if rows[i].dedup_key->0@ == key {
                assert(crate::outbox::is_active(rows[i]) && crate::outbox::has_dedup(rows[i], key));
            }
        }
        assert(after.outbox@.drop_last() =~= rows);
    }
}

/// Two schedules that fire in the same minute do so under different keys, and one schedule under the
/// same.
pub proof fn firing_keys_tell_schedules_apart(
    a: Seq<char>,
    b: Seq<char>,
    clock: Timestamp,
    other_clock: Timestamp,
)
    requires
        clock as int / 60_000_000 == other_clock as int / 60_000_000,
    ensures
        firing_key(a, clock) == firing_key(b, other_clock) <==> a == b,
{
    let stamp = time_text(clock as int / 60_000_000, MINUTE_PATTERN@);
    let x = firing_key(a, clock);
    let y = firing_key(b, other_clock);
    if x == y {
        assert(x.len() == y.len());
        assert(a.len() == b.len());
        let n = "sched:"@.len() as int;
        assert(x.subrange(n, n + a.len()) =~= a);
        assert(y.subrange(n, n + b.len()) =~= b);
    }
}

/// A tick fires every schedule that is switched on and whose time has come, where there are no more
/// than a hundred schedules, and no other: it is entered that it fired now, and when it is to fire
/// next. What is handed out is how many tasks were submitted; the rows that were there stay.
pub proof fn tick_fires_what_is_due(
    before: Store,
    after: Store,
    submitted: u64,
    clock: Timestamp,
    id: Seq<char>,
)
    requires
        ticked(before, after, Ok(Some(submitted)), clock),
        before.schedules@.dom().finite(),
        before.schedules@.dom().len() <= 100,
        before.schedules@.contains_key(id),
    ensures
        after.schedules@.contains_key(id),
        before.schedules@[id].enabled && before.schedules@[id].next_fire <= before.now ==> {
            let row = after.schedules@[id];
            &&& row.last_fired == Some(before.now)
            &&& row.next_fire == clock + (match interval_reading(before.schedules@[id].cron@) {
                Ok(interval) => interval.secs(),
                Err(_) => 3_600,
            }) * 1_000_000
            &&& row == (Schedule {
                last_fired: row.last_fired,
                next_fire: row.next_fire,
                ..before.schedules@[id]
            })
        },
        !before.schedules@[id].enabled || before.schedules@[id].next_fire > before.now
            ==> after.schedules@[id] == before.schedules@[id],
        after.outbox@.len() == before.outbox@.len() + submitted,
        submitted <= 100,
        forall|i: int|
            0 <= i < before.outbox@.len() ==> #[trigger] after.outbox@[i] == before.outbox@[i],
{
    let due = choose|due: Seq<Schedule>|
        schedules_listed(before.schedules@, Some(before.now), 100, due) && #[trigger] fired_at(
            before,
            after,
            Ok(Some(submitted)),
            due,
            clock,
        );
    assert(all_fired(before, after, Ok(submitted), due, clock));
    let (stores, count) = choose|stores: Seq<Store>, count: int|
        {
            &&& 0 <= count <= due.len()
            &&& #[trigger] fired_in_turn(stores, due.take(count), clock)
            &&& stores[0] == before
            &&& stores.last() == after
            &&& count == due.len() && submitted == after.outbox@.len() - before.outbox@.len()
        };
    assert(due.take(count) =~= due);
    let n = due.len() as int;
    assert(stores.last() == stores[n]);
    lemma_fired_in_turn(stores, due, clock, n, id);
    let schedule = before.schedules@[id];
    if schedule.enabled && schedule.next_fire <= before.now {
        if !crate::scheduler::lists_schedule(due, id) {
            assert(crate::scheduler::is_wanted(schedule, Some(before.now)));
            lemma_room_for_all(before.schedules@, due, id);
        }
        let k = choose|k: int| 0 <= k < due.len() && (#[trigger] due[k]).id@ == id;
        assert(crate::scheduler::listed_from(before.schedules@, Some(before.now), due[k]));
        assert(crate::scheduler::fire_fits(due[k].cron@, clock));
        assert(lists_before(due, id, n));
    } else if lists_before(due, id, n) {
        let k = choose|k: int| 0 <= k < n && (#[trigger] due[k]).id@ == id;
        assert(crate::scheduler::listed_from(before.schedules@, Some(before.now), due[k]));
    }
}

spec fn lists_before(due: Seq<Schedule>, id: Seq<char>, n: int) -> bool {
    exists|k: int| 0 <= k < n && (#[trigger] due[k]).id@ == id
}

proof fn lemma_fired_in_turn(
    stores: Seq<Store>,
    due: Seq<Schedule>,
    clock: Timestamp,
    n: int,
    id: Seq<char>,
)
    requires
        fired_in_turn(stores, due, clock),
        schedules_listed(stores[0].schedules@, Some(stores[0].now), 100, due),
        all_fit(due, clock),
        0 <= n <= due.len(),
        stores[0].schedules@.contains_key(id),
    ensures
        stores[n].now == stores[0].now,
        stores[n].schedules@.contains_key(id),
        stores[0].outbox@.len() <= stores[n].outbox@.len() <= stores[0].outbox@.len() + n,
        forall|i: int|
            0 <= i < stores[0].outbox@.len() ==> #[trigger] stores[n].outbox@[i]
                == stores[0].outbox@[i],
        ({
            let schedule = stores[0].schedules@[id];
            if lists_before(due, id, n) {
                stores[n].schedules@[id] == (Schedule {
                    last_fired: Some(stores[0].now),
                    next_fire: crate::scheduler::following_fire(schedule.cron@, clock) as i64,
                    ..schedule
                })
            } else {
                stores[n].schedules@[id] == schedule
            }
        }),
    decreases n,
{
    if n > 0 {
        lemma_fired_in_turn(stores, due, clock, n - 1, id);
        let a = stores[n - 1];
        let b = stores[n];
        let fires = due[n - 1];
        assert(fired(stores[n - 1], stores[n - 1 + 1], fires, clock));
        assert(crate::scheduler::listed_from(stores[0].schedules@, Some(stores[0].now), fires));
        assert forall|i: int| 0 <= i < stores[0].outbox@.len() implies #[trigger] b.outbox@[i]
            == stores[0].outbox@[i] by {
            assert(a.outbox@[i] == stores[0].outbox@[i]);
        }
        if lists_before(due, id, n - 1) {
            let k = choose|k: int| 0 <= k < n - 1 && (#[trigger] due[k]).id@ == id;
            assert(due[k].id@ != due[n - 1].id@);
            assert(0 <= k < n && due[k].id@ == id);
        }
        if fires.id@ == id {
            assert(0 <= n - 1 < n && due[n - 1].id@ == id);
        }
    }
}

proof fn lemma_room_for_all(schedules: Map<Seq<char>, Schedule>, due: Seq<Schedule>, id: Seq<char>)
    requires
        schedules.dom().finite(),
        schedules.dom().len() <= 100,
        schedules.contains_key(id),
        due.len() == 100,
        forall|k: int| 0 <= k < due.len() ==> schedules.contains_key((#[trigger] due[k]).id@),
        forall|j: int, k: int|
            0 <= j < k < due.len() ==> (#[trigger] due[j]).id@ != (#[trigger] due[k]).id@,
    ensures
        crate::scheduler::lists_schedule(due, id),
{
    let ids = Seq::new(due.len(), |k: int| due[k].id@);
    assert(ids.no_duplicates()) by {
        assert forall|a: int, b: int| 0 <= a < ids.len() && 0 <= b < ids.len() && a != b implies ids[a]
            != ids[b] by {
            if a < b {
                assert(due[a].id@ != due[b].id@);
            } else {
                assert(due[b].id@ != due[a].id@);
            }
        }
    }
    ids.unique_seq_to_set();
    if !crate::scheduler::lists_schedule(due, id) {
        let rest = schedules.dom().remove(id);
        assert forall|x: Seq<char>| ids.to_set().contains(x) implies rest.contains(x) by {
            let k = choose|k: int| 0 <= k < ids.len() && ids[k] == x;
            assert(due[k].id@ == x);
        }
        vstd::set_lib::lemma_len_subset(ids.to_set(), rest);
    }
}

/// A tick is put off only where a schedule that is due would next fire outside the calendar, and
/// changes nothing where it is. It fails only where identifiers run out, which they do not with a
/// hundred of them left. It submits no more than a hundred tasks.
pub proof fn tick_is_put_off_only_for_cause(
    before: Store,
    after: Store,
    r: Result<Option<u64>>,
    clock: Timestamp,
)
    requires
        ticked(before, after, r, clock),
    ensures
        r matches Ok(None) ==> after == before && exists|id: Seq<char>|
            {
                let schedule = before.schedules@[id];
                let at = clock + (match interval_reading(schedule.cron@) {
                    Ok(interval) => interval.secs(),
                    Err(_) => 3_600,
                }) * 1_000_000;
                &&& #[trigger] before.schedules@.contains_key(id)
                &&& schedule.enabled
                &&& schedule.next_fire <= before.now
                &&& !(MIN_TIMESTAMP <= at <= MAX_TIMESTAMP)
            },
        r matches Ok(Some(submitted)) ==> submitted <= 100 && after.outbox@.len()
            == before.outbox@.len() + submitted,
        before.next_id + 100 <= i64::MAX ==> r is Ok,
{
    let due = choose|due: Seq<Schedule>|
        schedules_listed(before.schedules@, Some(before.now), 100, due) && #[trigger] fired_at(
            before,
            after,
            r,
            due,
            clock,
        );
    match r {
        Ok(None) => {
            let k = choose|k: int|
                0 <= k < due.len() && !crate::scheduler::fire_fits((#[trigger] due[k]).cron@, clock);
            assert(crate::scheduler::listed_from(before.schedules@, Some(before.now), due[k]));
            assert(before.schedules@.contains_key(due[k].id@));
        },
        Ok(Some(submitted)) => {
            let (stores, count) = choose|stores: Seq<Store>, count: int|
                {
                    &&& 0 <= count <= due.len()
                    &&& #[trigger] fired_in_turn(stores, due.take(count), clock)
                    &&& stores[0] == before
                    &&& stores.last() == after
                    &&& count == due.len() && submitted == after.outbox@.len() - before.outbox@.len()
                };
            lemma_identifiers_used(stores, due.take(count), clock, count);
        },
        Err(e) => {
            let (stores, count) = choose|stores: Seq<Store>, count: int|
                {
                    &&& 0 <= count <= due.len()
                    &&& #[trigger] fired_in_turn(stores, due.take(count), clock)
                    &&& stores[0] == before
                    &&& stores.last() == after
                    &&& count < due.len() && after.next_id == i64::MAX && e
                        == StrunkError::Database(DbError::OutOfRange)
                };
            lemma_identifiers_used(stores, due.take(count), clock, count);
        },
    }
}

proof fn lemma_identifiers_used(
    stores: Seq<Store>,
    schedules: Seq<Schedule>,
    clock: Timestamp,
    n: int,
)
    requires
        fired_in_turn(stores, schedules, clock),
        0 <= n <= schedules.len(),
    ensures
        stores[n].next_id == stores[0].next_id + n,
        stores[0].outbox@.len() <= stores[n].outbox@.len() <= stores[0].outbox@.len() + n,
    decreases n,
{
    if n > 0 {
        lemma_identifiers_used(stores, schedules, clock, n - 1);
        assert(crate::scheduler::fired(
            stores[n - 1],
            stores[n - 1 + 1],
            schedules[n - 1],
            clock,
        ));
    }
}

/// A reader hands out what the expression says: the interval, or its seconds, where there is one, and
/// otherwise what is wrong with it.
pub proof fn readings_are_handed_out(
    r: Result<Interval>,
    secs: Result<i64>,
    reading: std::result::Result<Interval, Seq<char>>,
)
    requires
        reports(r, reading),
        reports_secs(secs, reading),
    ensures
        r is Ok <==> reading is Ok,
        secs is Ok <==> reading is Ok,
        reading matches Ok(interval) ==> r->Ok_0.secs() == interval.secs() && secs->Ok_0
            == interval.secs(),
        reading matches Err(text) ==> r->Err_0 is Config && r->Err_0.text() == text,
        reading matches Err(text) ==> secs->Err_0 is Config && secs->Err_0.text() == text,
{
}

/// A number and a unit are handed out as that many seconds, however many they are.
pub proof fn written_durations_are_handed_out(
    left: Seq<char>,
    s: Seq<char>,
    gap: Seq<char>,
    unit: char,
    right: Seq<char>,
    n: i64,
    r: Result<Interval>,
    secs: Result<i64>,
)
    requires
        i64_of(s) == Some(n),
        is_blank(left),
        is_blank(gap),
        is_blank(right),
        unit == 's' || unit == 'm' || unit == 'h' || unit == 'd',
        reports(r, duration_reading(left + (s + gap).push(unit) + right)),
        reports_secs(secs, duration_reading(left + (s + gap).push(unit) + right)),
    ensures
        r is Ok && secs is Ok,
        r->Ok_0.secs() == secs->Ok_0,
        unit == 's' ==> secs->Ok_0 == n,
        unit == 'm' ==> secs->Ok_0 == n * 60,
        unit == 'h' ==> secs->Ok_0 == n * 3_600,
        unit == 'd' ==> secs->Ok_0 == n * 86_400,
{
    number_and_unit_are_a_duration(left, s, gap, right, n);
    readings_are_handed_out(r, secs, duration_reading(left + (s + gap).push(unit) + right));
}

/// What cannot be read is quoted. A text that ends in a unit is no duration, any other is no interval
/// at all, a word behind `@` is no shorthand, and one word that is not an interval is no schedule.
pub proof fn unreadable_expressions_are_quoted(s: Seq<char>)
    ensures
        ({
            let t = trimmed(s);
            let unit = t.len() > 0 && (t.last() == 's' || t.last() == 'm' || t.last() == 'h'
                || t.last() == 'd');
            let invalid = "invalid duration: '"@ + t + "'"@;
            let unknown = "cannot parse schedule interval: '"@ + t
                + "'. Use formats like '30s', '5m', '1h', '1d', '@hourly', '@daily', 'every 5m'"@;
            &&& (duration_reading(s) matches Err(text) ==> text == if unit {
                invalid
            } else {
                unknown
            })
            &&& (t.len() > 0 && t[0] == '@' && !has_prefix(t, "@every "@) ==> (interval_reading(
                s,
            ) matches Err(text) ==> text == "unsupported schedule shorthand: '"@ + t + "'"@))
            &&& (schedule_reading(s) matches Err(text) ==> (is_one_word(s) ==> text
                == "invalid cron expression: '"@ + s + "'"@))
            &&& (schedule_reading(s) matches Err(text) ==> (!is_one_word(s) ==> interval_reading(s)
                == std::result::Result::<Interval, Seq<char>>::Err(text)))
        }),
{
    let t = trimmed(s);
    reveal_strlit("every ");
    if t.len() > 0 && t[0] == '@' {
        assert(!has_prefix(t, "every "@)) by {
            if has_prefix(t, "every "@) {
                assert(t.take(6)[0] == t[0]);
                assert("every "@[0] == 'e');
            }
        }
    }
}

} // verus!
