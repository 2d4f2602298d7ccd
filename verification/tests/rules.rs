use std::cmp::Ordering;
use std::collections::HashSet;

use strunk::admin::{purge, retry_all};
use strunk::change_feed::{ChangePublish, Subscriber};
use strunk::cron::{
    next_fire_after, next_fire_from_cron, parse_duration_string, parse_simple_interval,
};
use strunk::cycle::{CycleEvent, CycleStep};
use strunk::error::DbError;
use strunk::health::{age, report as report_health};
use strunk::json::{json_type_name, Member, Number};
use strunk::like::matches_like;
use strunk::number::{parse_i64, version_cmp};
use strunk::reaper::Reaper;
use strunk::relay::{mark_failed_with, Relay};
use strunk::relay_loop::{RelayEvent, RelayStep};
use strunk::report::{preview, shown_time};
use strunk::retry::{after_failure, backoff_secs, Failure};
use strunk::scheduler::{
    due_schedules, fire_all, make_firing_key, next_fire_or_hour, tick, tick_at,
};
use strunk::subscriber::{horizon, SubscriberEvent, SubscriberStep};
use strunk::task_queue::{batch_columns, Worker};
use strunk::text::{is_space_char, one_word, trim};
use strunk::time::{
    add_span, Interval, Unit, MAX_INTERVAL_SECS, MAX_TIMESTAMP, MIN_TIMESTAMP,
};
use strunk::worker::{Held, WorkerEvent, WorkerStep};
use strunk::{
    BatchItem, Json, MessageKind, MessageStatus, OutboxRow, Span, StateEvent, Store, Strunk,
    StrunkConfig, StrunkError, Task, Transaction, TypedStateEvent, TypedTask,
};

const NOW: i64 = 1_700_000_000_000_000;

fn setup() -> (Strunk, Store) {
    (Strunk::new(StrunkConfig::default()), Store::new(1_700_000_000_000_000))
}

fn number(value: i64) -> Json {
    if value >= 0 {
        Json::Number(Number::PosInt(value as u64))
    } else {
        Json::Number(Number::NegInt(value))
    }
}

fn text(value: &str) -> Json {
    Json::String(value.to_string())
}

fn object(members: Vec<(&str, Json)>) -> Json {
    Json::object(
        members
            .into_iter()
            .map(|(name, value)| Member { name: name.to_string(), value })
            .collect(),
    )
}

fn field<'a>(value: &'a Json, name: &str) -> &'a Json {
    value.get(name).unwrap()
}

fn schema(fields: Vec<(&str, &str)>, required: Vec<&str>) -> Json {
    let properties = fields
        .into_iter()
        .map(|(name, kind)| (name, object(vec![("type", text(kind))])))
        .collect();
    object(vec![
        ("properties", object(properties)),
        ("required", Json::array(required.into_iter().map(text).collect())),
    ])
}

/// Runs a worker until it is told to stop.
fn run_worker(
    worker: &Worker,
    store: &mut Store,
    mut handler: impl FnMut(&mut Store, &Task) -> bool,
    mut cancelled: impl FnMut(&Store) -> bool,
) {
    let mut step = WorkerStep::Check;
    let mut task: Option<Task> = None;
    loop {
        let event = match step {
            WorkerStep::Stop => return,
            WorkerStep::Check => WorkerEvent::Token { cancelled: cancelled(store) },
            WorkerStep::Handle(_) => {
                let ok = handler(store, task.as_ref().unwrap());
                WorkerEvent::Handled { ok }
            }
            WorkerStep::Wait { .. } => {
                store.advance(worker.poll_interval);
                WorkerEvent::Elapsed
            }
            WorkerStep::Claim => {
                let (event, claimed) = worker.perform(store, step);
                task = claimed;
                event
            }
            _ => worker.perform(store, step).0,
        };
        step = worker.next(step, event, false);
    }
}

/// Runs a subscriber for some rounds.
fn run_subscriber(
    subscriber: &Subscriber,
    store: &mut Store,
    rounds: usize,
    mut handler: impl FnMut(&StateEvent) -> bool,
) {
    let mut step = SubscriberStep::first();
    let mut batch: Vec<OutboxRow> = Vec::new();
    let mut checks = 0;
    loop {
        let event = match step {
            SubscriberStep::Stop => return,
            SubscriberStep::Check => {
                checks += 1;
                SubscriberEvent::Token { cancelled: checks > rounds }
            }
            SubscriberStep::Handle { index, .. } => {
                let event = StateEvent::from(batch[index].clone());
                SubscriberEvent::Handled { ok: handler(&event) }
            }
            SubscriberStep::Wait { .. } => {
                store.advance(subscriber.poll_interval);
                SubscriberEvent::Elapsed
            }
            SubscriberStep::Pause => SubscriberEvent::Elapsed,
            _ => {
                let (event, read) = subscriber.perform(store, step, &batch);
                if let Some(rows) = read {
                    batch = rows;
                }
                event.unwrap()
            }
        };
        step = step.next(event, false);
    }
}

fn queue_task(strunk: &Strunk, store: &mut Store, queue: &str) -> i64 {
    let mut tx = strunk.begin(store).unwrap();
    let id = strunk.task(queue).submit(&mut tx, store).unwrap();
    tx.commit(store).unwrap();
    id
}

fn publish(strunk: &Strunk, store: &mut Store, entity_type: &str, id: &str, state: Json) -> i64 {
    let mut tx = strunk.begin(store).unwrap();
    let event = ChangePublish::new(entity_type, id).state(state).publish(&mut tx, store).unwrap();
    tx.commit(store).unwrap();
    event
}

// Time

#[test]
fn calendar_bounds_are_those_of_chrono() {
    assert_eq!(MAX_TIMESTAMP, chrono::DateTime::<chrono::Utc>::MAX_UTC.timestamp_micros());
    assert_eq!(MIN_TIMESTAMP, chrono::DateTime::<chrono::Utc>::MIN_UTC.timestamp_micros());
    assert_eq!(
        MAX_INTERVAL_SECS,
        chrono::Duration::MAX.num_seconds(),
        "the longest interval in whole seconds"
    );
}

#[test]
fn units_have_their_seconds() {
    let secs = |count, unit| Interval { count, unit }.to_secs();
    assert_eq!(secs(7, Unit::Second), 7);
    assert_eq!(secs(7, Unit::Minute), 420);
    assert_eq!(secs(7, Unit::Hour), 25_200);
    assert_eq!(secs(7, Unit::Day), 604_800);
    assert_eq!(secs(7, Unit::Week), 4_233_600);
    assert_eq!(secs(-2, Unit::Minute), -120);
}

#[test]
fn interval_moves_a_point_in_time() {
    let day = Interval { count: 1, unit: Unit::Day };
    assert_eq!(day.after(NOW), NOW + 86_400_000_000);
    assert!(day.fits_after(NOW));
    assert!(!day.fits_after(MAX_TIMESTAMP));
    let back = Interval { count: -1, unit: Unit::Second };
    assert_eq!(back.after(NOW), NOW - 1_000_000);
}

#[test]
fn spans_count_microseconds() {
    assert_eq!(Span::from_secs(3).micros, 3_000_000);
    assert_eq!(Span::from_millis(3).micros, 3_000);
    assert_eq!(Span::from_millis(2_999).as_secs(), 2);
    assert_eq!(add_span(NOW, Span::from_secs(1)), Some(NOW + 1_000_000));
    assert_eq!(add_span(i64::MAX, Span::from_millis(1)), None);
}

#[test]
fn times_are_shown_to_the_second() {
    assert_eq!(shown_time(Some(NOW)), "2023-11-14 22:13:20");
    assert_eq!(shown_time(Some(NOW + 999_999)), "2023-11-14 22:13:20");
    assert_eq!(shown_time(Some(-1)), "1969-12-31 23:59:59");
    assert_eq!(shown_time(Some(MIN_TIMESTAMP)), "-262143-01-01 00:00:00");
    assert_eq!(shown_time(Some(MAX_TIMESTAMP)), "+262142-12-31 23:59:59");
    assert_eq!(shown_time(None), "");
}

#[test]
fn firing_keys_name_the_minute() {
    assert_eq!(make_firing_key("daily", NOW), "sched:daily:202311142213");
    assert_eq!(make_firing_key("daily", NOW + 39_999_999), "sched:daily:202311142213");
    assert_eq!(make_firing_key("daily", NOW + 40_000_000), "sched:daily:202311142214");
    assert_ne!(make_firing_key("daily", NOW), make_firing_key("daily", NOW + 60_000_000));
}

// Text

#[test]
fn whitespace_is_that_of_unicode() {
    for code in 0..=0x10_FFFF {
        if let Some(c) = char::from_u32(code) {
            assert_eq!(is_space_char(c), c.is_whitespace(), "{:x}", code);
        }
    }
}

#[test]
fn trimming_takes_whitespace_off_both_ends() {
    for s in ["", " ", "a", " a", "a ", "\t a b \n", "\u{3000}x\u{2003}"] {
        assert_eq!(trim(s), s.trim());
        assert_eq!(trim(trim(s)), trim(s));
        assert_eq!(one_word(s), s.split_whitespace().count() < 2);
    }
}

#[test]
fn patterns_match_like_a_database() {
    assert!(matches_like("order:%", "order:42"));
    assert!(matches_like("order:%", "order:"));
    assert!(!matches_like("order:%", "orders:42"));
    assert!(matches_like("a_c", "abc"));
    assert!(!matches_like("a_c", "ac"));
    assert!(matches_like("a\\_c", "a_c"));
    assert!(!matches_like("a\\_c", "abc"));
    assert!(!matches_like("a\\", "a"));
    assert!(matches_like("%x%", "axb"));
}

// Numbers and versions

#[test]
fn versions_compare_by_number() {
    assert_eq!(version_cmp("1.10", "1.9"), Ordering::Greater);
    assert_eq!(version_cmp("1.9", "1.10"), Ordering::Less);
    assert_eq!(version_cmp("1.0", "1"), Ordering::Greater);
    assert_eq!(version_cmp("1.0", "1.0"), Ordering::Equal);
    assert_eq!(version_cmp("1.x.2", "1.2"), Ordering::Equal);
    assert_eq!(version_cmp("18446744073709551616", ""), Ordering::Equal);
    assert_eq!(version_cmp("+2", "1"), Ordering::Greater);
}

#[test]
fn integers_are_read_like_std() {
    for s in [
        "0", "-0", "+7", "-7", "", "+", "-", "--1", "1a", " 1", "00012", "9223372036854775807",
        "9223372036854775808", "-9223372036854775808", "-9223372036854775809",
    ] {
        assert_eq!(parse_i64(s), s.parse::<i64>().ok(), "{:?}", s);
    }
}

// Schedule expressions

#[test]
fn expressions_give_intervals() {
    assert_eq!(parse_simple_interval("every 30s").unwrap(), 30);
    assert_eq!(parse_simple_interval("@every 2h").unwrap(), 7_200);
    assert_eq!(parse_simple_interval("  every   5m ").unwrap(), 300);
    assert_eq!(parse_simple_interval("1d").unwrap(), 86_400);
    assert_eq!(parse_simple_interval("90").unwrap(), 90);
    assert_eq!(parse_simple_interval("-5m").unwrap(), -300);
    assert_eq!(parse_simple_interval("@hourly").unwrap(), 3_600);
    assert_eq!(parse_simple_interval("@daily").unwrap(), 86_400);
    assert_eq!(parse_simple_interval("@weekly").unwrap(), 604_800);
    assert_eq!(parse_simple_interval("@monthly").unwrap(), 2_592_000);
    assert_eq!(parse_duration_string(" 5 m ").unwrap(), 300);
    assert_eq!(next_fire_after("every 1m", NOW).unwrap(), Some(NOW + 60_000_000));
    assert_eq!(next_fire_after("every 1m", MAX_TIMESTAMP).unwrap(), None);
}

#[test]
fn blank_durations_are_refused() {
    for s in ["", " ", "\t \n"] {
        assert!(parse_duration_string(s).is_err());
        assert!(parse_simple_interval(&format!("every {}", s)).is_err());
        assert!(parse_simple_interval(&format!("@every {}", s)).is_err());
    }
}

#[test]
fn outer_space_changes_nothing() {
    for (s, wide) in [("every 5m", "\t every 5m "), ("30s", " 30s\n"), ("@hourly", " @hourly ")] {
        assert_eq!(parse_simple_interval(wide).unwrap(), parse_simple_interval(s).unwrap());
        assert_eq!(next_fire_after(wide, NOW).unwrap(), next_fire_after(s, NOW).unwrap());
    }
    assert_eq!(
        parse_simple_interval(" soon ").unwrap_err(),
        parse_simple_interval("soon").unwrap_err()
    );
}

#[test]
fn bad_expressions_say_what_is_wrong() {
    assert_eq!(
        parse_simple_interval("every xm").unwrap_err().message(),
        "invalid duration: 'xm'"
    );
    assert_eq!(
        parse_simple_interval("@yearly").unwrap_err().message(),
        "unsupported schedule shorthand: '@yearly'"
    );
    assert_eq!(
        parse_simple_interval("soon").unwrap_err().message(),
        "cannot parse schedule interval: 'soon'. Use formats like '30s', '5m', '1h', '1d', '@hourly', '@daily', 'every 5m'"
    );
    for word in ["", "  ", "soon", " soon ", "@yearly", "xm", "every"] {
        assert_eq!(
            next_fire_from_cron(word).unwrap_err().message(),
            format!("invalid cron expression: '{}'", word)
        );
    }
    assert_eq!(
        next_fire_from_cron("every xm").unwrap_err().message(),
        "invalid duration: 'xm'"
    );
    assert_eq!(
        next_fire_from_cron(" 0 9 * * * ").unwrap_err().message(),
        "cannot parse schedule interval: '0 9 * * *'. Use formats like '30s', '5m', '1h', '1d', '@hourly', '@daily', 'every 5m'"
    );
}

#[test]
fn next_fire_goes_by_the_clock() {
    let clock = || chrono::Utc::now().timestamp_micros();
    let before = clock();
    let next = next_fire_from_cron("every 30s").unwrap().unwrap();
    let after = clock();
    assert!(before + 30_000_000 <= next && next <= after + 30_000_000);
    assert_eq!(next_fire_from_cron("9000000000000s").unwrap(), None);
}

// Retries

#[test]
fn backoff_doubles_with_every_attempt() {
    assert_eq!(backoff_secs(0), 1);
    assert_eq!(backoff_secs(1), 1);
    assert_eq!(backoff_secs(2), 2);
    assert_eq!(backoff_secs(3), 4);
    assert_eq!(backoff_secs(62), 1 << 61);
}

#[test]
fn failure_is_retried_or_buried() {
    assert_eq!(after_failure(5, 3, 0), Failure::Retry { delay_secs: 4 });
    assert_eq!(after_failure(5, 3, 1 << 63), Failure::Retry { delay_secs: 6 });
    assert_eq!(after_failure(5, 3, u64::MAX), Failure::Retry { delay_secs: 7 });
    assert_eq!(after_failure(3, 3, 0), Failure::Bury);
    assert_eq!(after_failure(0, 0, 0), Failure::Bury);
}

#[test]
fn failed_task_waits_for_its_backoff() {
    let (strunk, mut store) = setup();
    let id = queue_task(&strunk, &mut store, "q");
    strunk.claim(&mut store, "q", Span::from_secs(1)).unwrap().unwrap();
    mark_failed_with(&mut store, id, 3, 1, u64::MAX).unwrap();
    assert_eq!(store.outbox[0].status, MessageStatus::Pending);
    assert_eq!(store.outbox[0].visible_at, NOW + 1_000_000);
    for _ in 0..20 {
        strunk.fail(&mut store, id, 3, 2).unwrap();
        let wait = store.outbox[0].visible_at - NOW;
        assert!(wait >= 2_000_000 && wait < 4_000_000);
    }
    mark_failed_with(&mut store, id, 3, 3, 0).unwrap();
    assert_eq!(store.outbox[0].status, MessageStatus::Dead);
    assert_eq!(store.outbox[0].delivered_at, Some(NOW));
}

#[test]
fn jitter_varies() {
    let (strunk, mut store) = setup();
    let id = queue_task(&strunk, &mut store, "q");
    let mut waits = HashSet::new();
    for _ in 0..20 {
        strunk.fail(&mut store, id, 60, 40).unwrap();
        waits.insert(store.outbox[0].visible_at);
    }
    assert!(waits.len() > 1);
}

// Errors of the store

#[test]
fn refused_writes_abort_a_transaction() {
    let (strunk, mut store) = setup();
    let mut tx = strunk.begin(&store).unwrap();
    strunk.task("q").dedup_key("k").submit(&mut tx, &mut store).unwrap();
    assert_eq!(
        strunk.task("q").dedup_key("k").submit(&mut tx, &mut store),
        Err(StrunkError::Database(DbError::UniqueViolation))
    );
    assert_eq!(
        strunk.task("q").submit(&mut tx, &mut store),
        Err(StrunkError::Database(DbError::TransactionAborted))
    );
    let items = vec![BatchItem::new("q", Json::Null)];
    assert_eq!(
        strunk.submit_batch(&mut tx, &mut store, items),
        Err(StrunkError::Database(DbError::TransactionAborted))
    );
    assert_eq!(strunk.submit_batch(&mut tx, &mut store, vec![]), Ok(vec![]));
    assert_eq!(tx.commit(&mut store), Ok(()));
    assert!(store.outbox.is_empty());
}

#[test]
fn key_taken_in_between_is_refused_at_commit() {
    let (strunk, mut store) = setup();
    let mut first = strunk.begin(&store).unwrap();
    let mut second = strunk.begin(&store).unwrap();
    strunk.task("q").dedup_key("k").submit(&mut first, &mut store).unwrap();
    strunk.task("q").dedup_key("k").submit(&mut second, &mut store).unwrap();
    first.commit(&mut store).unwrap();
    assert_eq!(
        second.commit(&mut store),
        Err(StrunkError::Database(DbError::UniqueViolation))
    );
    assert_eq!(store.outbox.len(), 1);
}

#[test]
fn times_out_of_range_are_refused() {
    let (strunk, mut store) = setup();
    let forever = Span { micros: u64::MAX };
    let out_of_range = StrunkError::Database(DbError::OutOfRange);
    let mut tx = strunk.begin(&store).unwrap();
    let refused = strunk.task("q").delay(forever).submit(&mut tx, &mut store);
    assert_eq!(refused.unwrap_err().message(), out_of_range.message());
    let mut tx = strunk.begin(&store).unwrap();
    let items = vec![BatchItem::new("q", Json::Null), BatchItem::new("q", Json::Null).delay(forever)];
    assert!(strunk.submit_batch(&mut tx, &mut store, items).is_err());
    assert!(tx.rows.is_empty());
    let id = queue_task(&strunk, &mut store, "q");
    assert_eq!(strunk.claim(&mut store, "q", forever).unwrap_err(), out_of_range);
    assert_eq!(store.outbox[0].attempts, 0);
    strunk.claim(&mut store, "q", Span::from_secs(1)).unwrap().unwrap();
    let refused = Err(out_of_range);
    assert_eq!(strunk.heartbeat(&mut store, id, forever), refused);
    assert_eq!(mark_failed_with(&mut store, id, 63, 62, 0), refused);
    assert_eq!(store.outbox[0].status, MessageStatus::Claimed);
    assert_eq!(store.outbox[0].visible_at, NOW + 1_000_000);
}

#[test]
fn times_out_of_range_do_not_matter_without_a_row() {
    let (strunk, mut store) = setup();
    let forever = Span { micros: u64::MAX };
    assert_eq!(strunk.heartbeat(&mut store, 1, forever), Ok(()));
    assert_eq!(mark_failed_with(&mut store, 1, 63, 62, 0), Ok(()));
    assert!(strunk.claim(&mut store, "q", forever).unwrap().is_none());
    let id = queue_task(&strunk, &mut store, "q");
    assert_eq!(strunk.heartbeat(&mut store, id, forever), Ok(()));
    assert_eq!(strunk.heartbeat(&mut store, id + 1, forever), Ok(()));
    assert_eq!(mark_failed_with(&mut store, id + 1, 63, 62, 0), Ok(()));
    assert_eq!(store.outbox[0].visible_at, NOW);
}

#[test]
fn limits_below_zero_are_refused() {
    let (strunk, mut store) = setup();
    let negative = StrunkError::Database(DbError::NegativeLimit);
    assert_eq!(strunk.dead_letters(&store, "q", -1).unwrap_err(), negative);
    assert_eq!(
        Relay::new(Span::from_secs(1), -1).poll_pending(&mut store).unwrap_err(),
        negative
    );
    assert_eq!(strunk.reaper().batch_size(-1).reap_once(&mut store).unwrap_err(), negative);
    let subscriber = strunk.subscriber("s", "order").batch_size(-1);
    assert_eq!(subscriber.poll_changes(&store, 0).unwrap_err(), negative);
}

#[test]
fn unknown_subscriber_has_no_cursor() {
    let (strunk, mut store) = setup();
    let subscriber = strunk.subscriber("s", "order");
    assert_eq!(
        subscriber.last_seen_id(&store),
        Err(StrunkError::Database(DbError::RowNotFound))
    );
    subscriber.advance_cursor(&mut store, 5).unwrap();
    assert!(strunk.subscriber_stats(&store, "s").unwrap().is_none());
}

#[test]
fn errors_have_messages() {
    let message = |e: DbError| StrunkError::Database(e).message();
    assert_eq!(
        message(DbError::UniqueViolation),
        "duplicate key value violates unique constraint"
    );
    assert_eq!(
        message(DbError::RowNotFound),
        "no rows returned by a query that expected to return at least one row"
    );
    assert_eq!(message(DbError::NegativeLimit), "LIMIT must not be negative");
    assert_eq!(message(DbError::OutOfRange), "value out of range");
    assert_eq!(message(DbError::TransactionAborted), "current transaction is aborted");
    assert_eq!(StrunkError::Serialisation("bad".to_string()).message(), "bad");
    assert_eq!(StrunkError::Config("worse".to_string()).message(), "worse");
}

#[test]
fn revival_is_refused_while_the_key_is_taken() {
    let (strunk, mut store) = setup();
    let mut tx = strunk.begin(&store).unwrap();
    let id = strunk.task("q").dedup_key("k").max_retries(0).submit(&mut tx, &mut store).unwrap();
    tx.commit(&mut store).unwrap();
    strunk.fail(&mut store, id, 0, 0).unwrap();
    let mut tx = strunk.begin(&store).unwrap();
    let other = strunk.task("q").dedup_key("k").submit(&mut tx, &mut store).unwrap();
    tx.commit(&mut store).unwrap();
    assert_eq!(
        strunk.retry_dead(&mut store, id),
        Err(StrunkError::Database(DbError::UniqueViolation))
    );
    assert!(retry_all(&mut store, "q").is_err());
    strunk.complete(&mut store, other).unwrap();
    strunk.retry_dead(&mut store, id).unwrap();
    assert_eq!(store.outbox[0].status, MessageStatus::Pending);
}

// Tasks

#[test]
fn task_builder_fills_the_row() {
    let (strunk, mut store) = setup();
    let mut tx = strunk.begin(&store).unwrap();
    strunk
        .task("q")
        .typed(number(1))
        .metadata(text("m"))
        .priority(4)
        .max_retries(9)
        .delay(Span::from_secs(2))
        .dedup_key("k")
        .submit(&mut tx, &mut store)
        .unwrap();
    tx.commit(&mut store).unwrap();
    let row = &store.outbox[0];
    assert_eq!((row.id, row.kind, row.key.as_str()), (1, MessageKind::Task, "q"));
    assert_eq!(row.dedup_key.as_deref(), Some("k"));
    assert_eq!((&row.payload, &row.metadata), (&number(1), &text("m")));
    assert_eq!((row.priority, row.max_retries, row.attempts, row.progress), (4, 9, 0, 0));
    assert_eq!((row.visible_at, row.created_at), (NOW + 2_000_000, NOW));
    assert_eq!((row.status, row.delivered_at), (MessageStatus::Pending, None));
}

#[test]
fn batch_stands_in_columns() {
    let items = vec![
        BatchItem::new("a", number(1)).priority(7),
        BatchItem::new("b", number(2)).max_retries(1).delay(Span::from_secs(1)),
    ];
    let columns = batch_columns(items);
    assert_eq!(columns.keys, vec!["a".to_string(), "b".to_string()]);
    assert_eq!(columns.payloads, vec![number(1), number(2)]);
    assert_eq!(columns.metadatas, vec![Json::empty_object(), Json::empty_object()]);
    assert_eq!(columns.priorities, vec![7, 0]);
    assert_eq!(columns.retries, vec![3, 1]);
    assert_eq!(columns.delays, vec![Span { micros: 0 }, Span::from_secs(1)]);
}

#[test]
fn batch_gets_identifiers_in_order() {
    let (strunk, mut store) = setup();
    queue_task(&strunk, &mut store, "q");
    let mut tx = strunk.begin(&store).unwrap();
    let items = (0..3).map(|i| BatchItem::new("q", number(i))).collect();
    assert_eq!(strunk.submit_batch(&mut tx, &mut store, items), Ok(vec![2, 3, 4]));
    tx.commit(&mut store).unwrap();
    let payloads: Vec<&Json> = store.outbox[1..].iter().map(|row| &row.payload).collect();
    assert_eq!(payloads, vec![&number(0), &number(1), &number(2)]);
}

#[test]
fn older_task_of_the_same_priority_comes_first() {
    let (strunk, mut store) = setup();
    let first = queue_task(&strunk, &mut store, "q");
    let second = queue_task(&strunk, &mut store, "q");
    let claimed = |store: &mut Store| {
        strunk.claim(store, "q", Span::from_secs(30)).unwrap().map(|task| task.id)
    };
    assert_eq!(claimed(&mut store), Some(first));
    assert_eq!(claimed(&mut store), Some(second));
    assert_eq!(claimed(&mut store), None);
    store.advance(Span::from_secs(30));
    assert_eq!(claimed(&mut store), Some(first));
}

#[test]
fn heartbeat_and_progress_are_for_claimed_tasks() {
    let (strunk, mut store) = setup();
    let id = queue_task(&strunk, &mut store, "q");
    strunk.heartbeat(&mut store, id, Span::from_secs(60)).unwrap();
    strunk.set_progress(&mut store, id, 10).unwrap();
    assert_eq!((store.outbox[0].visible_at, store.outbox[0].progress), (NOW, 0));
    strunk.claim(&mut store, "q", Span::from_secs(1)).unwrap().unwrap();
    strunk.heartbeat(&mut store, id, Span::from_secs(60)).unwrap();
    strunk.set_progress(&mut store, id, -10).unwrap();
    assert_eq!((store.outbox[0].visible_at, store.outbox[0].progress), (NOW + 60_000_000, 0));
    assert_eq!(strunk.get_progress(&store, 99).unwrap(), None);
}

#[test]
fn stored_result_keeps_its_queue() {
    let (strunk, mut store) = setup();
    strunk.complete_with_result(&mut store, 7, "first", number(1)).unwrap();
    store.advance(Span::from_secs(1));
    strunk.complete_with_result(&mut store, 7, "second", number(2)).unwrap();
    let result = strunk.get_result(&store, 7).unwrap().unwrap();
    assert_eq!((result.queue.as_str(), &result.result), ("first", &number(2)));
    assert_eq!(result.completed_at, NOW + 1_000_000);
}

#[test]
fn inbox_remembers_each_consumer() {
    let (strunk, mut store) = setup();
    assert!(!strunk.inbox_contains(&store, "a", 1).unwrap());
    strunk.inbox_mark(&mut store, "a", 1).unwrap();
    strunk.inbox_mark(&mut store, "a", 1).unwrap();
    assert!(strunk.inbox_contains(&store, "a", 1).unwrap());
    assert!(!strunk.inbox_contains(&store, "b", 1).unwrap());
    assert!(!strunk.inbox_contains(&store, "a", 2).unwrap());
}

#[test]
fn typed_task_carries_the_decoded_payload() {
    let (strunk, mut store) = setup();
    queue_task(&strunk, &mut store, "q");
    let task = strunk.claim(&mut store, "q", Span::from_secs(1)).unwrap().unwrap();
    let id = task.id;
    let typed = TypedTask::try_from_task::<String>(task, Ok(5u8)).unwrap();
    assert_eq!((typed.id, typed.queue.as_str(), typed.data, typed.attempts), (id, "q", 5, 1));
    store.advance(Span::from_secs(1));
    let task = strunk.claim(&mut store, "q", Span::from_secs(1)).unwrap().unwrap();
    let refused = TypedTask::<u8>::try_from_task(task, Err("bad".to_string()));
    assert_eq!(refused.unwrap_err(), "bad");
}

// Workers

#[test]
fn worker_with_inbox_skips_processed_task() {
    let (strunk, mut store) = setup();
    let id = queue_task(&strunk, &mut store, "payments");
    let worker = strunk.worker("payments").inbox("payment-processor");
    strunk.inbox_mark(&mut store, "payment-processor", id).unwrap();
    let mut handled = 0;
    let start = store.now;
    run_worker(
        &worker,
        &mut store,
        |_, _| {
            handled += 1;
            true
        },
        |store| store.now > start,
    );
    assert_eq!(handled, 0);
    assert_eq!(store.outbox[0].status, MessageStatus::Delivered);
}

#[test]
fn worker_with_inbox_remembers_its_tasks() {
    let (strunk, mut store) = setup();
    let good = queue_task(&strunk, &mut store, "payments");
    let bad = queue_task(&strunk, &mut store, "payments");
    let worker = strunk.worker("payments").inbox("payment-processor");
    let start = store.now;
    run_worker(&worker, &mut store, |_, task| task.id == good, |store| store.now > start);
    assert!(strunk.inbox_contains(&store, "payment-processor", good).unwrap());
    assert!(!strunk.inbox_contains(&store, "payment-processor", bad).unwrap());
    assert_eq!(store.outbox[0].status, MessageStatus::Delivered);
    assert_eq!(store.outbox[1].status, MessageStatus::Pending);
}

#[test]
fn worker_steps_follow_events() {
    let worker = Worker::new("q");
    let inbox = Worker::new("q").inbox("c");
    let held = Held { task_id: 1, max_retries: 3, attempts: 1 };
    let step = |worker: &Worker, step, event| worker.next(step, event, true);
    assert_eq!(
        step(&worker, WorkerStep::Check, WorkerEvent::Token { cancelled: true }),
        WorkerStep::Stop
    );
    assert_eq!(
        step(&worker, WorkerStep::Claim, WorkerEvent::Claimed(held)),
        WorkerStep::Announce(held)
    );
    assert_eq!(
        step(&inbox, WorkerStep::Claim, WorkerEvent::Claimed(held)),
        WorkerStep::CheckInbox(held)
    );
    assert_eq!(
        step(&worker, WorkerStep::Claim, WorkerEvent::Idle),
        WorkerStep::Wait { listen: true }
    );
    assert_eq!(
        step(&worker, WorkerStep::Claim, WorkerEvent::ClaimFailed),
        WorkerStep::Wait { listen: false }
    );
    assert_eq!(
        step(&inbox, WorkerStep::Handle(held), WorkerEvent::Handled { ok: true }),
        WorkerStep::MarkInbox(held)
    );
    assert_eq!(
        step(&worker, WorkerStep::Handle(held), WorkerEvent::Handled { ok: false }),
        WorkerStep::ReportFailure(held)
    );
    assert_eq!(
        step(&worker, WorkerStep::Wait { listen: true }, WorkerEvent::Notified { ours: false }),
        WorkerStep::Pause
    );
    assert_eq!(step(&worker, WorkerStep::Stop, WorkerEvent::Elapsed), WorkerStep::Stop);
}

#[test]
fn notifications_are_told_apart() {
    let worker = Worker::new("emails");
    assert!(worker.concerns("task:emails"));
    assert!(worker.concerns("task:emails-bulk"));
    assert!(!worker.concerns("event:emails"));
    let subscriber = Subscriber::new("s", "order");
    assert!(subscriber.concerns("event:order:42"));
    assert!(!subscriber.concerns("event:orders:42"));
    assert!(!subscriber.concerns("task:order:42"));
}

#[test]
fn background_job_stops_when_told() {
    let mut step = CycleStep::first();
    for event in [
        CycleEvent::Token { cancelled: false },
        CycleEvent::Worked,
        CycleEvent::Elapsed,
        CycleEvent::Token { cancelled: true },
        CycleEvent::Worked,
    ] {
        step = step.next(event);
    }
    assert_eq!(step, CycleStep::Stop);
    assert_eq!(CycleStep::Wait.next(CycleEvent::Cancelled), CycleStep::Stop);
    assert_eq!(CycleStep::Work.next(CycleEvent::Elapsed), CycleStep::Work);
}

// Events

#[test]
fn event_row_carries_diff_and_version() {
    let (strunk, mut store) = setup();
    let mut tx = strunk.begin(&store).unwrap();
    ChangePublish::new("order", "42:a")
        .state(number(1))
        .diff(text("d"))
        .schema_version("2.1")
        .publish(&mut tx, &mut store)
        .unwrap();
    tx.commit(&mut store).unwrap();
    let row = store.outbox[0].clone();
    assert_eq!((row.kind, row.key.as_str()), (MessageKind::Event, "order:42:a"));
    assert_eq!(
        row.metadata,
        object(vec![("diff", text("d")), ("schema_version", text("2.1"))])
    );
    let event = StateEvent::from(row);
    assert_eq!((event.entity_type.as_str(), event.entity_id.as_str()), ("order", "42:a"));
    assert_eq!((event.state, event.diff), (number(1), Some(text("d"))));
}

#[test]
fn key_without_colon_is_all_type() {
    let (strunk, mut store) = setup();
    queue_task(&strunk, &mut store, "plain");
    let event = StateEvent::from(store.outbox[0].clone());
    assert_eq!((event.entity_type.as_str(), event.entity_id.as_str()), ("plain", ""));
    assert!(event.diff.is_none());
    let typed = TypedStateEvent::try_from_event::<String>(event, Ok(1u8)).unwrap();
    assert_eq!((typed.entity_type.as_str(), typed.data), ("plain", 1));
}

#[test]
fn unregistered_states_are_refused() {
    let (mut strunk, mut store) = setup();
    let mut tx = strunk.begin(&store).unwrap();
    let message = |strunk: &Strunk, tx: &mut Transaction, store: &mut Store, state: Json| {
        strunk.event("user", "1").state(state).publish(tx, store).unwrap_err().message()
    };
    assert_eq!(
        message(&strunk, &mut tx, &mut store, Json::Null),
        "no schemas registered for entity type 'user'"
    );
    strunk.register_schema("user", "0.9", &schema(vec![("id", "integer")], vec!["id"])).unwrap();
    assert_eq!(
        message(&strunk, &mut tx, &mut store, Json::Null),
        "no schema version '1.0' registered for entity type 'user'"
    );
    strunk.register_schema("user", "1.0", &schema(vec![("id", "integer")], vec!["id"])).unwrap();
    assert_eq!(
        message(&strunk, &mut tx, &mut store, Json::Null),
        "payload must be a JSON object"
    );
    assert_eq!(
        message(&strunk, &mut tx, &mut store, Json::empty_object()),
        "required field 'id' missing from payload"
    );
    assert_eq!(
        message(&strunk, &mut tx, &mut store, object(vec![("id", text("x"))])),
        "field 'id' expected type 'integer' but got 'string'"
    );
    assert!(!tx.aborted && tx.rows.is_empty());
}

#[test]
fn relay_delivers_each_event_once() {
    let (strunk, mut store) = setup();
    for i in 0..3 {
        publish(&strunk, &mut store, "order", &i.to_string(), number(i));
    }
    queue_task(&strunk, &mut store, "q");
    let relay = Relay::new(Span::from_secs(1), 2);
    let ids = |rows: Vec<OutboxRow>| rows.iter().map(|row| row.id).collect::<Vec<i64>>();
    assert_eq!(ids(relay.poll_pending(&mut store).unwrap()), vec![1, 2]);
    assert_eq!(ids(relay.poll_pending(&mut store).unwrap()), vec![3]);
    assert!(relay.poll_pending(&mut store).unwrap().is_empty());
    assert_eq!(store.outbox[0].status, MessageStatus::Delivered);
    assert_eq!(store.outbox[3].status, MessageStatus::Pending);
    let subscriber = strunk.subscriber("s", "order");
    assert_eq!(ids(subscriber.poll_changes(&store, 0).unwrap()), vec![1, 2, 3]);
}

#[test]
fn subscriber_sees_failed_event_again() {
    let (strunk, mut store) = setup();
    for i in 0..4 {
        publish(&strunk, &mut store, "order", &i.to_string(), number(i));
    }
    let subscriber = strunk.subscriber("s", "order").batch_size(2);
    let mut calls = Vec::new();
    let mut failed = false;
    run_subscriber(&subscriber, &mut store, 5, |event| {
        calls.push(event.id);
        if event.id == 3 && !failed {
            failed = true;
            return false;
        }
        true
    });
    assert_eq!(calls, vec![1, 2, 3, 3, 4]);
    let stats = strunk.subscriber_stats(&store, "s").unwrap().unwrap();
    assert_eq!((stats.last_seen_id, stats.latest_outbox_id, stats.lag), (4, 4, 0));
}

#[test]
fn subscriber_is_rewound() {
    let (strunk, mut store) = setup();
    for i in 0..4 {
        publish(&strunk, &mut store, "order", &i.to_string(), number(i));
    }
    publish(&strunk, &mut store, "user", "1", Json::Null);
    let subscriber = strunk.subscriber("s", "order");
    let mut seen = Vec::new();
    run_subscriber(&subscriber, &mut store, 1, |event| {
        seen.push(event.id);
        true
    });
    strunk.replay_subscriber(&mut store, "s", 2).unwrap();
    assert_eq!(strunk.subscriber_stats(&store, "s").unwrap().unwrap().lag, 2);
    run_subscriber(&subscriber, &mut store, 1, |event| {
        seen.push(event.id);
        true
    });
    strunk.reset_subscriber(&mut store, "s").unwrap();
    run_subscriber(&subscriber, &mut store, 1, |event| {
        seen.push(event.id);
        true
    });
    assert_eq!(seen, vec![1, 2, 3, 4, 3, 4, 1, 2, 3, 4]);
}

#[test]
fn event_committed_late_is_not_passed_over() {
    let (strunk, mut store) = setup();
    let mut early = strunk.begin(&store).unwrap();
    ChangePublish::new("order", "1").publish(&mut early, &mut store).unwrap();
    publish(&strunk, &mut store, "order", "2", Json::Null);
    let subscriber = strunk.subscriber("s", "order");
    let mut seen = Vec::new();
    run_subscriber(&subscriber, &mut store, 1, |event| {
        seen.push(event.id);
        true
    });
    assert!(seen.is_empty());
    early.commit(&mut store).unwrap();
    run_subscriber(&subscriber, &mut store, 1, |event| {
        seen.push(event.id);
        true
    });
    assert_eq!(seen, vec![1, 2]);
}

#[test]
fn events_that_are_given_up_hold_nothing_back() {
    let (strunk, mut store) = setup();
    let subscriber = strunk.subscriber("s", "order");
    publish(&strunk, &mut store, "order", "1", Json::Null);
    let mut open = strunk.begin(&store).unwrap();
    ChangePublish::new("order", "2").publish(&mut open, &mut store).unwrap();
    publish(&strunk, &mut store, "order", "3", Json::Null);
    let ids = |rows: Vec<OutboxRow>| rows.iter().map(|row| row.id).collect::<Vec<i64>>();
    assert_eq!(store.held, vec![2]);
    assert_eq!(ids(subscriber.poll_changes(&store, 0).unwrap()), vec![1]);
    open.rollback(&mut store);
    assert!(store.held.is_empty());
    assert_eq!(ids(subscriber.poll_changes(&store, 0).unwrap()), vec![1, 3]);

    let mut refused = strunk.begin(&store).unwrap();
    ChangePublish::new("order", "4").publish(&mut refused, &mut store).unwrap();
    refused.aborted = true;
    refused.commit(&mut store).unwrap();
    assert!(store.held.is_empty());

    let mut tasks = strunk.begin(&store).unwrap();
    strunk.task("q").submit(&mut tasks, &mut store).unwrap();
    publish(&strunk, &mut store, "order", "5", Json::Null);
    assert_eq!(ids(subscriber.poll_changes(&store, 3).unwrap()), vec![6]);
}

#[test]
fn horizon_is_the_lowest_identifier_held() {
    assert_eq!(horizon(&Vec::new(), 9), 9);
    assert_eq!(horizon(&vec![7, 3, 5], 9), 3);
    assert_eq!(horizon(&vec![12], 9), 9);
}

// Relay

/// Runs a relay for some rounds.
fn run_relay(
    relay: &Relay,
    store: &mut Store,
    rounds: usize,
    mut handler: impl FnMut(&mut Store, &OutboxRow),
) {
    let mut step = RelayStep::first();
    let mut rows: Vec<OutboxRow> = Vec::new();
    let mut checks = 0;
    loop {
        let event = match step {
            RelayStep::Stop => return,
            RelayStep::Check => {
                checks += 1;
                RelayEvent::Token { cancelled: checks > rounds }
            }
            RelayStep::Poll => {
                let (event, found) = relay.poll_step(store);
                rows = found;
                event
            }
            RelayStep::Hand { index, .. } => {
                handler(store, &rows[index]);
                RelayEvent::Handed
            }
            RelayStep::Wait => {
                store.advance(relay.poll_interval);
                RelayEvent::Elapsed
            }
        };
        step = step.next(event);
    }
}

#[test]
fn relay_hands_every_event_over_once() {
    let (strunk, mut store) = setup();
    for i in 0..5 {
        publish(&strunk, &mut store, "order", &format!("{}", i), Json::Null);
    }
    let relay = Relay::new(Span::from_millis(100), 2);
    let mut handed = Vec::new();
    run_relay(&relay, &mut store, 3, |store, row| {
        let delivered =
            store.outbox.iter().filter(|row| row.status == MessageStatus::Delivered).count();
        handed.push((row.id, delivered));
    });
    assert_eq!(handed, vec![(1, 2), (2, 2), (3, 4), (4, 4), (5, 5)]);
}

#[test]
fn relay_waits_when_it_cannot_take_events() {
    let (strunk, mut store) = setup();
    publish(&strunk, &mut store, "order", "1", Json::Null);
    let relay = Relay::new(Span::from_millis(100), -1);
    let (event, rows) = relay.poll_step(&mut store);
    assert_eq!(event, RelayEvent::Failed);
    assert!(rows.is_empty());
    let mut handed = 0;
    run_relay(&relay, &mut store, 3, |_, _| handed += 1);
    assert_eq!(handed, 0);
    assert_eq!(store.now, NOW + 300_000);
    assert_eq!(store.outbox[0].status, MessageStatus::Pending);
}

#[test]
fn relay_steps_follow_events() {
    let poll = RelayStep::first().next(RelayEvent::Token { cancelled: false });
    assert_eq!(poll, RelayStep::Poll);
    assert_eq!(RelayStep::Check.next(RelayEvent::Token { cancelled: true }), RelayStep::Stop);
    assert_eq!(poll.next(RelayEvent::Polled { count: 0 }), RelayStep::Wait);
    assert_eq!(poll.next(RelayEvent::Failed), RelayStep::Wait);
    let first = poll.next(RelayEvent::Polled { count: 2 });
    assert_eq!(first, RelayStep::Hand { index: 0, count: 2 });
    assert_eq!(first.next(RelayEvent::Cancelled), first);
    assert_eq!(first.next(RelayEvent::Token { cancelled: true }), first);
    let second = first.next(RelayEvent::Handed);
    assert_eq!(second, RelayStep::Hand { index: 1, count: 2 });
    assert_eq!(second.next(RelayEvent::Handed), RelayStep::Wait);
    assert_eq!(RelayStep::Wait.next(RelayEvent::Elapsed), RelayStep::Check);
    assert_eq!(RelayStep::Wait.next(RelayEvent::Cancelled), RelayStep::Stop);
    assert_eq!(RelayStep::Stop.next(RelayEvent::Elapsed), RelayStep::Stop);
}

#[test]
fn subscriber_steps_follow_events() {
    let next = |step: SubscriberStep, event| step.next(event, true);
    assert_eq!(
        next(SubscriberStep::Register, SubscriberEvent::Registered { ok: false }),
        SubscriberStep::Stop
    );
    assert_eq!(
        next(SubscriberStep::ReadCursor, SubscriberEvent::Failed),
        SubscriberStep::Wait { listen: false }
    );
    assert_eq!(
        next(SubscriberStep::Poll { after: 0 }, SubscriberEvent::Polled { count: 0 }),
        SubscriberStep::Wait { listen: true }
    );
    let advance = SubscriberStep::Advance { index: 1, count: 2 };
    assert_eq!(
        next(advance, SubscriberEvent::Advanced { ok: true }),
        SubscriberStep::Wait { listen: true }
    );
    assert_eq!(
        advance.next(SubscriberEvent::Advanced { ok: true }, false),
        SubscriberStep::Wait { listen: false }
    );
    assert_eq!(
        next(advance, SubscriberEvent::Advanced { ok: false }),
        SubscriberStep::Wait { listen: false }
    );
    let handle = SubscriberStep::Handle { index: 1, count: 2 };
    assert_eq!(
        next(handle, SubscriberEvent::Handled { ok: false }),
        SubscriberStep::Wait { listen: false }
    );
    assert_eq!(
        next(SubscriberStep::Wait { listen: true }, SubscriberEvent::Notified { ours: true }),
        SubscriberStep::Check
    );
    assert_eq!(
        next(SubscriberStep::Wait { listen: true }, SubscriberEvent::Cancelled),
        SubscriberStep::Stop
    );
}

// Schemas

#[test]
fn schema_without_properties_is_refused() {
    let (mut strunk, _) = setup();
    let refused = strunk.register_schema("e", "1.0", &Json::empty_object());
    assert_eq!(
        refused.unwrap_err().message(),
        "schema must have 'properties' object with typed fields"
    );
}

#[test]
fn incompatible_schemas_say_why() {
    let (mut strunk, _) = setup();
    strunk
        .register_schema("e", "1.9", &schema(vec![("a", "string"), ("b", "any")], vec!["a"]))
        .unwrap();
    let mut refused = |fields, required| {
        strunk
            .register_schema("e", "1.10", &schema(fields, required))
            .unwrap_err()
            .message()
    };
    assert_eq!(
        refused(vec![("b", "any")], vec![]),
        "required field 'a' was removed, breaking backward compatibility"
    );
    assert_eq!(
        refused(vec![("a", "integer"), ("b", "any")], vec![]),
        "field 'a' changed type from 'string' to 'integer', breaking backward compatibility"
    );
    assert_eq!(
        refused(vec![("a", "string"), ("c", "string")], vec!["c"]),
        "new field 'c' is required but did not exist in the previous version, breaking backward compatibility"
    );
    assert_eq!(
        refused(vec![("a", "integer"), ("c", "string")], vec!["c"]),
        "field 'a' changed type from 'string' to 'integer', breaking backward compatibility"
    );
    assert_eq!(
        refused(vec![("c", "string"), ("b", "any")], vec!["c"]),
        "required field 'a' was removed, breaking backward compatibility"
    );
    strunk.register_schema("e", "1.10", &schema(vec![("a", "string")], vec![])).unwrap();
    strunk.register_schema("e", "1.11", &schema(vec![], vec![])).unwrap();
}

#[test]
fn stored_schema_reads_back() {
    let (mut strunk, mut store) = setup();
    let document = schema(vec![("a", "string"), ("b", "integer")], vec!["b"]);
    strunk.register_schema("e", "1.0", &document).unwrap();
    strunk.registry.persist(&mut store, "e").unwrap();
    strunk.registry.persist(&mut store, "unknown").unwrap();
    let key = ("e".to_string(), "1.0".to_string());
    let row = store.schemas.get(&key).unwrap();
    assert_eq!(row.created_at, NOW);
    let stored = object(vec![
        ("type", text("object")),
        (
            "properties",
            object(vec![
                ("a", object(vec![("type", text("string"))])),
                ("b", object(vec![("type", text("integer"))])),
            ]),
        ),
        ("required", Json::array(vec![text("b")])),
    ]);
    assert_eq!(row.schema, stored);
    assert_eq!(store.schemas.len(), 1);
    store.advance(Span::from_secs(1));
    strunk.registry.persist(&mut store, "e").unwrap();
    assert_eq!(store.schemas.get(&key).unwrap().created_at, NOW);
}

#[test]
fn schema_takes_its_own_place() {
    let (mut strunk, mut store) = setup();
    let document = schema(vec![("a", "string"), ("b", "integer")], vec!["b"]);
    strunk.register_schema("e", "1.0", &document).unwrap();
    strunk.register_schema("e", "1.1", &document).unwrap();
    strunk.registry.persist(&mut store, "e").unwrap();
    let key = ("e".to_string(), "1.1".to_string());
    let stored = store.schemas.get(&key).unwrap().schema.clone();
    strunk.register_schema("e", "1.2", &stored).unwrap();
    assert_eq!(strunk.registry.documents_of("e").len(), 3);
}

#[test]
fn payload_survives_new_optional_field() {
    let (mut strunk, mut store) = setup();
    strunk.register_schema("e", "1.0", &schema(vec![("a", "string")], vec!["a"])).unwrap();
    let wider = schema(vec![("a", "string"), ("b", "integer")], vec!["a"]);
    strunk.register_schema("e", "1.1", &wider).unwrap();
    let mut tx = strunk.begin(&store).unwrap();
    for version in ["1.0", "1.1"] {
        let state = object(vec![("a", text("x"))]);
        let event = strunk.event("e", "1").state(state).schema_version(version);
        assert!(event.publish(&mut tx, &mut store).is_ok());
    }
}

#[test]
fn snapshots_of_other_entities_stay() {
    let (strunk, mut store) = setup();
    publish(&strunk, &mut store, "order", "1", number(1));
    publish(&strunk, &mut store, "order", "2", number(2));
    let mut tx = strunk.begin(&store).unwrap();
    for state in [3, 4] {
        let event = ChangePublish::new("order", "2").state(number(state));
        event.publish(&mut tx, &mut store).unwrap();
    }
    assert_eq!(strunk.snapshot(&store, "order", "2").unwrap(), Some(number(2)));
    tx.commit(&mut store).unwrap();
    assert_eq!(strunk.snapshot(&store, "order", "1").unwrap(), Some(number(1)));
    assert_eq!(strunk.snapshot(&store, "order", "2").unwrap(), Some(number(4)));
}

#[test]
fn null_and_any_meet_every_type() {
    let (mut strunk, mut store) = setup();
    strunk
        .register_schema("e", "1.0", &schema(vec![("a", "string"), ("b", "any")], vec!["a"]))
        .unwrap();
    let mut tx = strunk.begin(&store).unwrap();
    let state = object(vec![("a", Json::Null), ("b", number(-1)), ("c", Json::Bool(true))]);
    assert!(strunk.event("e", "1").state(state).publish(&mut tx, &mut store).is_ok());
}

// Schedules

#[test]
fn schedule_keeps_its_times_when_registered_again() {
    let (strunk, mut store) = setup();
    strunk.schedule("s", "q", "every 1m").register_at(&mut store, NOW).unwrap();
    strunk.disable_schedule(&mut store, "s").unwrap();
    strunk
        .schedule("s", "q2", "every 1h")
        .max_retries(9)
        .register_at(&mut store, NOW + 5_000_000)
        .unwrap();
    let schedules = strunk.list_schedules(&store).unwrap();
    assert_eq!(schedules[0].next_fire, NOW + 60_000_000);
    assert_eq!((schedules[0].cron.as_str(), schedules[0].enabled), ("every 1h", true));
    assert_eq!((schedules[0].max_retries, schedules[0].last_fired), (9, None));
}

#[test]
fn due_schedules_fire_in_turn() {
    let (strunk, mut store) = setup();
    strunk.schedule("late", "q", "every 2m").register_at(&mut store, NOW).unwrap();
    strunk.schedule("early", "q", "every 1m").register_at(&mut store, NOW).unwrap();
    strunk.schedule("off", "q", "every 1m").register_at(&mut store, NOW).unwrap();
    strunk.schedule("later", "q", "every 1h").register_at(&mut store, NOW).unwrap();
    strunk.disable_schedule(&mut store, "off").unwrap();
    assert_eq!(tick_at(&mut store, NOW).unwrap(), Some(0));
    store.advance(Span::from_secs(120));
    let clock = store.now;
    assert_eq!(tick_at(&mut store, clock).unwrap(), Some(2));
    let keys: Vec<&str> =
        store.outbox.iter().map(|row| row.dedup_key.as_deref().unwrap()).collect();
    assert_eq!(keys, vec!["sched:early:202311142215", "sched:late:202311142215"]);
    assert_eq!(tick_at(&mut store, clock).unwrap(), Some(0));
    store.advance(Span::from_secs(60));
    let clock = store.now;
    assert_eq!(tick_at(&mut store, clock).unwrap(), Some(1));
    let schedules = strunk.list_schedules(&store).unwrap();
    let early = schedules.iter().find(|s| s.id == "early").unwrap();
    assert_eq!((early.last_fired, early.next_fire), (Some(clock), clock + 60_000_000));
}

#[test]
fn unreadable_schedule_fires_in_an_hour() {
    assert_eq!(next_fire_or_hour("gibberish", NOW), Some(NOW + 3_600_000_000));
    assert_eq!(next_fire_or_hour("@daily", NOW), Some(NOW + 86_400_000_000));
    assert_eq!(next_fire_or_hour("gibberish", MAX_TIMESTAMP), None);
}

#[test]
fn tick_stops_where_the_calendar_ends() {
    let (strunk, mut store) = setup();
    let long = "8209000000000s";
    assert!(strunk.schedule("s", "q", long).register_at(&mut store, 0).unwrap());
    store.now = MAX_TIMESTAMP;
    assert_eq!(tick_at(&mut store, NOW).unwrap(), None);
    assert_eq!(tick(&mut store).unwrap(), None);
    assert!(store.outbox.is_empty());
    assert!(!strunk.schedule("t", "q", long).register_at(&mut store, NOW).unwrap());
    assert!(!strunk.schedule("t", "q", long).register(&mut store).unwrap());
    assert_eq!(strunk.list_schedules(&store).unwrap().len(), 1);
}

#[test]
fn tick_looks_at_the_first_hundred_only() {
    let (strunk, mut store) = setup();
    for i in 0..100 {
        let id = format!("s{}", i);
        strunk.schedule(&id, "q", "every 1m").register_at(&mut store, NOW).unwrap();
    }
    strunk.schedule("long", "q", "8209000000000s").register_at(&mut store, 0).unwrap();
    store.now = MAX_TIMESTAMP;
    assert_eq!(due_schedules(&store).len(), 100);
    assert_eq!(tick_at(&mut store, NOW).unwrap(), Some(100));
    strunk.disable_schedule(&mut store, "s0").unwrap();
    assert_eq!(tick_at(&mut store, NOW).unwrap(), None);
    assert_eq!(store.outbox.len(), 100);
}

#[test]
fn given_schedules_fire() {
    let (strunk, mut store) = setup();
    strunk.schedule("s", "q", "every 1m").register_at(&mut store, NOW).unwrap();
    let all = strunk.list_schedules(&store).unwrap();
    assert_eq!(fire_all(&mut store, &all, NOW).unwrap(), Some(1));
    assert_eq!(fire_all(&mut store, &all, NOW + 1).unwrap(), Some(0));
    assert_eq!(fire_all(&mut store, &all, MAX_TIMESTAMP).unwrap(), None);
    store.next_id = i64::MAX;
    assert_eq!(
        fire_all(&mut store, &all, NOW).unwrap_err(),
        StrunkError::Database(DbError::OutOfRange)
    );
}

// Reaper and operators

#[test]
fn reaper_goes_by_retention() {
    let (strunk, mut store) = setup();
    let done = queue_task(&strunk, &mut store, "q");
    let dead = queue_task(&strunk, &mut store, "q");
    queue_task(&strunk, &mut store, "q");
    strunk.complete(&mut store, done).unwrap();
    strunk.fail(&mut store, dead, 0, 0).unwrap();
    strunk.inbox_mark(&mut store, "c", done).unwrap();
    let reaper = Reaper::new()
        .retention_delivered(Span::from_secs(10))
        .retention_dead(Span::from_secs(20))
        .batch_size(1);
    store.advance(Span::from_secs(10));
    assert_eq!(reaper.reap_once(&mut store), Ok(0));
    store.advance(Span::from_millis(1));
    assert_eq!(reaper.reap_once(&mut store), Ok(1));
    assert!(!strunk.inbox_contains(&store, "c", done).unwrap());
    store.advance(Span::from_secs(20));
    assert_eq!(reaper.reap_once(&mut store), Ok(1));
    assert_eq!(store.outbox.len(), 1);
    assert!(reaper.is_last_batch(0) && !reaper.is_last_batch(1));
}

#[test]
fn settings_reach_the_background_jobs() {
    let (strunk, _) = setup();
    let reaper = strunk.reaper();
    assert_eq!(reaper.retention_delivered, Span::from_secs(7 * 24 * 3600));
    assert_eq!(reaper.retention_dead, Span::from_secs(30 * 24 * 3600));
    assert_eq!((reaper.batch_size, reaper.interval), (10_000, Span::from_secs(300)));
    let relay = strunk.relay();
    assert_eq!((relay.poll_interval, relay.batch_size), (Span::from_millis(100), 100));
    assert_eq!(strunk.scheduler().interval, Span::from_secs(30));
    let worker = strunk.worker("q");
    assert_eq!((worker.concurrency, worker.visibility_timeout), (1, Span::from_secs(30)));
    assert_eq!(worker.database_url.as_deref(), Some(""));
    assert_eq!(strunk.subscriber("s", "e").batch_size, 100);
}

#[test]
fn dead_letters_are_listed_youngest_first() {
    let (strunk, mut store) = setup();
    for _ in 0..3 {
        let id = queue_task(&strunk, &mut store, "q");
        strunk.fail(&mut store, id, 0, 0).unwrap();
        store.advance(Span::from_secs(1));
    }
    let ids = |rows: Vec<OutboxRow>| rows.iter().map(|row| row.id).collect::<Vec<i64>>();
    assert_eq!(ids(strunk.dead_letters(&store, "q", 2).unwrap()), vec![3, 2]);
    assert_eq!(retry_all(&mut store, "q"), Ok(3));
    assert!(strunk.dead_letters(&store, "q", 2).unwrap().is_empty());
    assert_eq!(strunk.pending_count(&store, "q").unwrap(), 3);
}

#[test]
fn purge_takes_one_status_of_one_queue() {
    let (strunk, mut store) = setup();
    let done = queue_task(&strunk, &mut store, "q");
    queue_task(&strunk, &mut store, "q");
    let other = queue_task(&strunk, &mut store, "other");
    strunk.complete(&mut store, done).unwrap();
    strunk.complete(&mut store, other).unwrap();
    assert_eq!(purge(&mut store, "q", "nonsense"), Ok(0));
    assert_eq!(purge(&mut store, "q", "delivered"), Ok(1));
    assert_eq!(purge(&mut store, "q", "pending"), Ok(1));
    assert_eq!(store.outbox.len(), 1);
}

#[test]
fn figures_add_up() {
    let (strunk, mut store) = setup();
    for _ in 0..4 {
        queue_task(&strunk, &mut store, "q");
        store.advance(Span::from_secs(1));
    }
    publish(&strunk, &mut store, "q", "1", Json::Null);
    strunk.claim(&mut store, "q", Span::from_secs(30)).unwrap().unwrap();
    strunk.complete(&mut store, 2).unwrap();
    strunk.fail(&mut store, 3, 0, 0).unwrap();
    let stats = strunk.queue_stats(&store, "q").unwrap();
    assert_eq!(stats.queue, "q");
    assert_eq!((stats.pending, stats.claimed, stats.delivered, stats.dead), (1, 1, 1, 1));
    assert_eq!(stats.oldest_pending, Some(NOW + 3_000_000));
    assert_eq!(strunk.pending_count(&store, "q").unwrap(), stats.pending + stats.claimed);
    let overall = strunk.overall_stats(&store).unwrap();
    assert_eq!((overall.total_pending, overall.total_claimed), (2, 1));
    assert_eq!((overall.total_delivered, overall.total_dead, overall.table_size), (1, 1, 5));
}

#[test]
fn health_goes_by_whole_seconds() {
    let (strunk, mut store) = setup();
    queue_task(&strunk, &mut store, "q");
    store.advance(Span::from_millis(5_999));
    let report = strunk.health(&store, Span::from_secs(6)).unwrap();
    assert_eq!((report.healthy, report.pending), (true, 1));
    assert_eq!(report.oldest_pending_age_secs, Some(5));
    assert!(!strunk.health(&store, Span::from_secs(5)).unwrap().healthy);
    assert_eq!(age(NOW, NOW - 1_500_000), -1);
    assert!(report_health(3, None, Span::from_secs(0)).healthy);
}

#[test]
fn long_payloads_are_cut() {
    let long = "x".repeat(81);
    assert_eq!(preview(&long), format!("{}...", "x".repeat(77)));
    assert_eq!(preview(&"x".repeat(80)), "x".repeat(80));
    let wide = format!("{}{}", "x".repeat(75), "\u{00FC}".repeat(3));
    assert_eq!(wide.len(), 81);
    assert_eq!(preview(&wide), format!("{}\u{00FC}...", "x".repeat(75)));
    assert_eq!(preview(&"\u{1F680}".repeat(20)), "\u{1F680}".repeat(20));
}

#[test]
fn json_finds_members_by_name() {
    let value = object(vec![("a", number(1)), ("b", Json::array(vec![text("x"), Json::Null]))]);
    assert_eq!(value.get("a"), Some(&number(1)));
    assert_eq!(value.get("c"), None);
    assert_eq!(number(1).get("a"), None);
    assert_eq!(field(&value, "b").as_array().unwrap().len(), 2);
    assert_eq!(value.clone(), value);
    let names: Vec<&str> = [
        Json::Null,
        Json::Bool(true),
        number(-1),
        Json::Number(Number::Float(0.5f64.to_bits())),
        text(""),
        Json::array(vec![]),
        Json::empty_object(),
    ]
    .iter()
    .map(json_type_name)
    .collect();
    assert_eq!(names, vec!["null", "boolean", "integer", "number", "string", "array", "object"]);
}
