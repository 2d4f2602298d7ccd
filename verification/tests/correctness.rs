use std::collections::HashSet;

use strunk::change_feed::Subscriber;
use strunk::json::{Member, Number};
use strunk::subscriber::{SubscriberEvent, SubscriberStep};
use strunk::task_queue::{claim, complete};
use strunk::{Json, OutboxRow, Span, StateEvent, Store, Strunk, StrunkConfig};

fn setup() -> (Strunk, Store) {
    (Strunk::new(StrunkConfig::default()), Store::new(1_700_000_000_000_000))
}

fn number(value: i64) -> Json {
    if value >= 0 {
        Json::Number(Number::PosInt(value as u64))
    } else {
        Json::Number(Number::NegInt(value))
    }
}

fn text(value: &str) -> Json {
    Json::String(value.to_string())
}

fn object(members: Vec<(&str, Json)>) -> Json {
    Json::object(
        members
            .into_iter()
            .map(|(name, value)| Member { name: name.to_string(), value })
            .collect(),
    )
}

fn field<'a>(value: &'a Json, name: &str) -> &'a Json {
    value.get(name).unwrap()
}

fn schema(fields: Vec<(&str, &str)>, required: Vec<&str>) -> Json {
    let properties = fields
        .into_iter()
        .map(|(name, kind)| (name, object(vec![("type", text(kind))])))
        .collect();
    object(vec![
        ("properties", object(properties)),
        ("required", Json::array(required.into_iter().map(text).collect())),
    ])
}

/// Runs a subscriber for some rounds.
fn run_subscriber(
    subscriber: &Subscriber,
    store: &mut Store,
    rounds: usize,
    mut handler: impl FnMut(&StateEvent) -> bool,
) {
    let mut step = SubscriberStep::first();
    let mut batch: Vec<OutboxRow> = Vec::new();
    let mut checks = 0;
    loop {
        let event = match step {
            SubscriberStep::Stop => return,
            SubscriberStep::Check => {
                checks += 1;
                SubscriberEvent::Token { cancelled: checks > rounds }
            }
            SubscriberStep::Handle { index, .. } => {
                let event = StateEvent::from(batch[index].clone());
                SubscriberEvent::Handled { ok: handler(&event) }
            }
            SubscriberStep::Wait { .. } => {
                store.advance(subscriber.poll_interval);
                SubscriberEvent::Elapsed
            }
            SubscriberStep::Pause => SubscriberEvent::Elapsed,
            _ => {
                let (event, read) = subscriber.perform(store, step, &batch);
                if let Some(rows) = read {
                    batch = rows;
                }
                event.unwrap()
            }
        };
        step = step.next(event, false);
    }
}

fn publish(strunk: &Strunk, store: &mut Store, entity_type: &str, id: &str, state: Json) {
    let mut tx = strunk.begin(store).unwrap();
    strunk
        .event(entity_type, id)
        .state(state)
        .schema_version("1.0")
        .publish(&mut tx, store)
        .unwrap();
    tx.commit(store).unwrap();
}

#[test]
fn concurrent_claim_no_double_delivery() {
    let (strunk, mut store) = setup();

    let mut tx = strunk.begin(&store).unwrap();
    strunk
        .task("race-queue")
        .payload(object(vec![("only_one", Json::Bool(true))]))
        .submit(&mut tx, &mut store)
        .unwrap();
    tx.commit(&mut store).unwrap();

    let mut claimed = Vec::new();
    for _ in 0..10 {
        let result = claim(&mut store, "race-queue", Span::from_secs(30)).unwrap();
        if let Some(task) = result {
            claimed.push(task.id);
        }
    }

    assert_eq!(
        claimed.len(),
        1,
        "exactly one worker should claim the task, got {}",
        claimed.len()
    );
}

#[test]
fn concurrent_claim_all_tasks_distributed() {
    let (strunk, mut store) = setup();

    let mut tx = strunk.begin(&store).unwrap();
    for i in 0..20 {
        strunk
            .task("dist-queue")
            .payload(object(vec![("i", number(i))]))
            .submit(&mut tx, &mut store)
            .unwrap();
    }
    tx.commit(&mut store).unwrap();

    let mut ids = HashSet::new();
    for _ in 0..20 {
        if let Some(task) = claim(&mut store, "dist-queue", Span::from_secs(30)).unwrap() {
            ids.insert(task.id);
            complete(&mut store, task.id).unwrap();
        }
    }

    assert_eq!(ids.len(), 20, "all 20 tasks should be claimed by someone, got {}", ids.len());
}

#[test]
fn visibility_timeout_makes_task_reclaimable() {
    let (strunk, mut store) = setup();

    let mut tx = strunk.begin(&store).unwrap();
    strunk
        .task("timeout-queue")
        .payload(object(vec![("timeout_test", Json::Bool(true))]))
        .submit(&mut tx, &mut store)
        .unwrap();
    tx.commit(&mut store).unwrap();

    let _task =
        strunk.claim(&mut store, "timeout-queue", Span::from_millis(100)).unwrap().unwrap();

    let none = strunk.claim(&mut store, "timeout-queue", Span::from_secs(30)).unwrap();
    assert!(none.is_none(), "task should not be reclaimable before timeout");

    store.advance(Span::from_millis(200));

    let reclaimed = strunk.claim(&mut store, "timeout-queue", Span::from_secs(30)).unwrap();
    assert!(reclaimed.is_some(), "task should be reclaimable after timeout expires");
}

#[test]
fn delayed_task_not_visible_before_time() {
    let (strunk, mut store) = setup();

    let mut tx = strunk.begin(&store).unwrap();
    strunk
        .task("delay-queue")
        .payload(object(vec![("delayed", Json::Bool(true))]))
        .delay(Span::from_secs(2))
        .submit(&mut tx, &mut store)
        .unwrap();
    tx.commit(&mut store).unwrap();

    let none = strunk.claim(&mut store, "delay-queue", Span::from_secs(30)).unwrap();
    assert!(none.is_none(), "delayed task should not be visible yet");

    let count = strunk.pending_count(&store, "delay-queue").unwrap();
    assert_eq!(count, 1, "task should exist but not be claimable");
}

#[test]
fn dedup_key_prevents_duplicate_submission() {
    let (strunk, mut store) = setup();

    let mut tx = strunk.begin(&store).unwrap();
    strunk
        .task("dedup-queue")
        .payload(object(vec![("order_id", number(42))]))
        .dedup_key("order-42-email")
        .submit(&mut tx, &mut store)
        .unwrap();
    tx.commit(&mut store).unwrap();

    let mut tx = strunk.begin(&store).unwrap();
    let result = strunk
        .task("dedup-queue")
        .payload(object(vec![("order_id", number(42))]))
        .dedup_key("order-42-email")
        .submit(&mut tx, &mut store);
    assert!(result.is_err(), "duplicate dedup_key should be rejected");
}

#[test]
fn dedup_key_allows_after_delivery() {
    let (strunk, mut store) = setup();

    let mut tx = strunk.begin(&store).unwrap();
    strunk
        .task("dedup-reuse-queue")
        .payload(object(vec![("first", Json::Bool(true))]))
        .dedup_key("reusable-key")
        .submit(&mut tx, &mut store)
        .unwrap();
    tx.commit(&mut store).unwrap();

    let task =
        strunk.claim(&mut store, "dedup-reuse-queue", Span::from_secs(30)).unwrap().unwrap();
    strunk.complete(&mut store, task.id).unwrap();

    let mut tx = strunk.begin(&store).unwrap();
    let result = strunk
        .task("dedup-reuse-queue")
        .payload(object(vec![("second", Json::Bool(true))]))
        .dedup_key("reusable-key")
        .submit(&mut tx, &mut store);
    tx.commit(&mut store).unwrap();

    assert!(
        result.is_ok(),
        "same dedup_key should be allowed after previous task is delivered"
    );
}

#[test]
fn queue_isolation() {
    let (strunk, mut store) = setup();

    let mut tx = strunk.begin(&store).unwrap();
    strunk
        .task("queue-a")
        .payload(object(vec![("queue", text("a"))]))
        .submit(&mut tx, &mut store)
        .unwrap();
    strunk
        .task("queue-b")
        .payload(object(vec![("queue", text("b"))]))
        .submit(&mut tx, &mut store)
        .unwrap();
    tx.commit(&mut store).unwrap();

    let task_a = strunk.claim(&mut store, "queue-a", Span::from_secs(30)).unwrap().unwrap();
    assert_eq!(field(&task_a.payload, "queue"), &text("a"));

    let task_b = strunk.claim(&mut store, "queue-b", Span::from_secs(30)).unwrap().unwrap();
    assert_eq!(field(&task_b.payload, "queue"), &text("b"));

    let none_a = strunk.claim(&mut store, "queue-a", Span::from_secs(30)).unwrap();
    assert!(none_a.is_none());

    let none_c = strunk.claim(&mut store, "queue-c", Span::from_secs(30)).unwrap();
    assert!(none_c.is_none());
}

#[test]
fn empty_queue_returns_none() {
    let (strunk, mut store) = setup();

    let result = strunk.claim(&mut store, "nonexistent-queue", Span::from_secs(30)).unwrap();
    assert!(result.is_none());

    let count = strunk.pending_count(&store, "nonexistent-queue").unwrap();
    assert_eq!(count, 0);

    let dead = strunk.dead_letters(&store, "nonexistent-queue", 10).unwrap();
    assert!(dead.is_empty());
}

#[test]
fn large_payload() {
    let (strunk, mut store) = setup();

    let big_string = "x".repeat(1_000_000);
    let payload = object(vec![("data", text(&big_string))]);

    let mut tx = strunk.begin(&store).unwrap();
    let id = strunk
        .task("big-queue")
        .payload(payload.clone())
        .submit(&mut tx, &mut store)
        .unwrap();
    tx.commit(&mut store).unwrap();

    let task = strunk.claim(&mut store, "big-queue", Span::from_secs(30)).unwrap().unwrap();
    assert_eq!(task.id, id);
    assert_eq!(field(&task.payload, "data").as_str().unwrap().len(), 1_000_000);
}

#[test]
fn unicode_in_keys_and_payloads() {
    let (strunk, mut store) = setup();

    let mut tx = strunk.begin(&store).unwrap();
    strunk
        .task("unicode-queue-\u{1F680}")
        .payload(object(vec![
            ("name", text("Tschuss\u{00FC}")),
            ("emoji", text("\u{1F389}\u{1F38A}")),
            ("chinese", text("\u{4F60}\u{597D}\u{4E16}\u{754C}")),
            ("arabic", text("\u{0645}\u{0631}\u{062D}\u{0628}\u{0627}")),
        ]))
        .submit(&mut tx, &mut store)
        .unwrap();
    tx.commit(&mut store).unwrap();

    let task = strunk
        .claim(&mut store, "unicode-queue-\u{1F680}", Span::from_secs(30))
        .unwrap()
        .unwrap();
    assert_eq!(field(&task.payload, "emoji"), &text("\u{1F389}\u{1F38A}"));
    assert_eq!(field(&task.payload, "chinese"), &text("\u{4F60}\u{597D}\u{4E16}\u{754C}"));
}

#[test]
fn subscriber_resumes_from_cursor() {
    let (mut strunk, mut store) = setup();
    strunk
        .register_schema(
            "item",
            "1.0",
            &schema(vec![("id", "integer"), ("name", "string")], vec!["id", "name"]),
        )
        .unwrap();

    let item = |i: i64| {
        object(vec![("id", number(i)), ("name", text(&format!("item-{}", i)))])
    };
    for i in 0..5 {
        publish(&strunk, &mut store, "item", &i.to_string(), item(i));
    }

    let subscriber = strunk
        .subscriber("cursor-test", "item")
        .poll_interval(Span::from_millis(50));
    let mut first_batch = Vec::new();
    run_subscriber(&subscriber, &mut store, 10, |event| {
        first_batch.push(event.entity_id.clone());
        true
    });
    assert_eq!(first_batch.len(), 5, "should have seen all 5 changes");

    for i in 5..8 {
        publish(&strunk, &mut store, "item", &i.to_string(), item(i));
    }

    let subscriber = strunk
        .subscriber("cursor-test", "item")
        .poll_interval(Span::from_millis(50));
    let mut second_batch = Vec::new();
    run_subscriber(&subscriber, &mut store, 10, |event| {
        second_batch.push(event.entity_id.clone());
        true
    });
    assert_eq!(second_batch.len(), 3, "should only see 3 new changes, not replay old ones");
}

#[test]
fn event_feed_ordering_per_entity() {
    let (mut strunk, mut store) = setup();
    strunk
        .register_schema("counter", "1.0", &schema(vec![("value", "integer")], vec!["value"]))
        .unwrap();

    for i in 0..10 {
        publish(&strunk, &mut store, "counter", "1", object(vec![("value", number(i))]));
    }

    let subscriber = strunk
        .subscriber("order-test", "counter")
        .poll_interval(Span::from_millis(50));
    let mut values = Vec::new();
    run_subscriber(&subscriber, &mut store, 10, |event| {
        values.push(field(&event.state, "value").clone());
        true
    });

    assert_eq!(values.len(), 10);
    for i in 0..10 {
        assert_eq!(values[i], number(i as i64), "changes should arrive in order");
    }
}

#[test]
fn schema_type_mismatch_rejected() {
    let (mut strunk, mut store) = setup();
    strunk
        .register_schema(
            "typed",
            "1.0",
            &schema(vec![("count", "integer"), ("name", "string")], vec!["count", "name"]),
        )
        .unwrap();

    let mut tx = strunk.begin(&store).unwrap();
    let result = strunk
        .event("typed", "1")
        .state(object(vec![("count", text("not_a_number")), ("name", text("test"))]))
        .schema_version("1.0")
        .publish(&mut tx, &mut store);

    assert!(result.is_err());
    assert!(result.unwrap_err().message().contains("count"));
}

#[test]
fn schema_new_required_field_incompatible() {
    let (mut strunk, _) = setup();
    strunk
        .register_schema("evolve", "1.0", &schema(vec![("id", "integer")], vec!["id"]))
        .unwrap();

    let result = strunk.register_schema(
        "evolve",
        "1.1",
        &schema(
            vec![("id", "integer"), ("mandatory_new", "string")],
            vec!["id", "mandatory_new"],
        ),
    );

    assert!(result.is_err(), "adding a new required field should be incompatible");
}

#[test]
fn reaper_does_not_touch_active_rows() {
    let (strunk, mut store) = setup();

    let mut tx = strunk.begin(&store).unwrap();
    for i in 0..5 {
        strunk
            .task("reaper-safe-queue")
            .payload(object(vec![("i", number(i))]))
            .submit(&mut tx, &mut store)
            .unwrap();
    }
    tx.commit(&mut store).unwrap();

    let reaper = strunk
        .reaper()
        .retention_delivered(Span::from_millis(1))
        .retention_dead(Span::from_millis(1))
        .interval(Span::from_millis(100));
    for _ in 0..5 {
        reaper.reap_once(&mut store).unwrap();
        store.advance(reaper.interval);
    }

    let count = strunk.pending_count(&store, "reaper-safe-queue").unwrap();
    assert_eq!(count, 5, "reaper should not delete pending tasks");
}

#[test]
fn snapshot_returns_latest_state() {
    let (mut strunk, mut store) = setup();
    strunk
        .register_schema("doc", "1.0", &schema(vec![("version", "integer")], vec!["version"]))
        .unwrap();

    for v in 1..=5 {
        publish(&strunk, &mut store, "doc", "1", object(vec![("version", number(v))]));
    }

    let state = strunk.snapshot(&store, "doc", "1").unwrap().unwrap();
    assert_eq!(field(&state, "version"), &number(5), "snapshot should reflect latest publish");
}

#[test]
fn snapshot_missing_entity_returns_none() {
    let (strunk, store) = setup();

    let state = strunk.snapshot(&store, "nonexistent", "999").unwrap();
    assert!(state.is_none());
}

#[test]
fn batch_submit_empty() {
    let (strunk, mut store) = setup();

    let mut tx = strunk.begin(&store).unwrap();
    let ids = strunk.submit_batch(&mut tx, &mut store, vec![]).unwrap();
    tx.commit(&mut store).unwrap();

    assert!(ids.is_empty());
}

#[test]
fn multiple_dead_letter_cycles() {
    let (strunk, mut store) = setup();

    let mut tx = strunk.begin(&store).unwrap();
    strunk
        .task("cycle-queue")
        .payload(object(vec![("stubborn", Json::Bool(true))]))
        .max_retries(1)
        .submit(&mut tx, &mut store)
        .unwrap();
    tx.commit(&mut store).unwrap();

    for cycle in 0..3 {
        let task = strunk
            .claim(&mut store, "cycle-queue", Span::from_secs(30))
            .unwrap()
            .unwrap_or_else(|| panic!("should be claimable on cycle {}", cycle));
        strunk.fail(&mut store, task.id, 1, task.attempts).unwrap();

        let dead = strunk.dead_letters(&store, "cycle-queue", 10).unwrap();
        assert_eq!(dead.len(), 1);

        strunk.retry_dead(&mut store, task.id).unwrap();
    }
}

#[test]
fn fail_with_retries_remaining_reschedules() {
    let (strunk, mut store) = setup();

    let mut tx = strunk.begin(&store).unwrap();
    strunk
        .task("retry-queue")
        .payload(object(vec![("retryable", Json::Bool(true))]))
        .max_retries(5)
        .submit(&mut tx, &mut store)
        .unwrap();
    tx.commit(&mut store).unwrap();

    let task = strunk.claim(&mut store, "retry-queue", Span::from_secs(30)).unwrap().unwrap();
    strunk.fail(&mut store, task.id, 5, task.attempts).unwrap();

    let dead = strunk.dead_letters(&store, "retry-queue", 10).unwrap();
    assert!(dead.is_empty(), "should not be dead-lettered with retries remaining");
}
