use strunk::change_feed::Subscriber;
use strunk::json::{Member, Number};
use strunk::subscriber::{SubscriberEvent, SubscriberStep};
use strunk::task_queue::{claim, complete, Worker};
use strunk::worker::{WorkerEvent, WorkerStep};
use strunk::{BatchItem, Json, OutboxRow, Span, StateEvent, Store, Strunk, StrunkConfig, Task};

fn setup() -> (Strunk, Store) {
    (Strunk::new(StrunkConfig::default()), Store::new(1_700_000_000_000_000))
}

fn number(value: i64) -> Json {
    if value >= 0 {
        Json::Number(Number::PosInt(value as u64))
    } else {
        Json::Number(Number::NegInt(value))
    }
}

fn text(value: &str) -> Json {
    Json::String(value.to_string())
}

fn object(members: Vec<(&str, Json)>) -> Json {
    Json::object(
        members
            .into_iter()
            .map(|(name, value)| Member { name: name.to_string(), value })
            .collect(),
    )
}

fn field<'a>(value: &'a Json, name: &str) -> &'a Json {
    value.get(name).unwrap()
}

fn schema(fields: Vec<(&str, &str)>, required: Vec<&str>) -> Json {
    let properties = fields
        .into_iter()
        .map(|(name, kind)| (name, object(vec![("type", text(kind))])))
        .collect();
    object(vec![
        ("properties", object(properties)),
        ("required", Json::array(required.into_iter().map(text).collect())),
    ])
}

/// Runs a worker until it is told to stop.
fn run_worker(
    worker: &Worker,
    store: &mut Store,
    mut handler: impl FnMut(&mut Store, &Task) -> bool,
    mut cancelled: impl FnMut(&Store) -> bool,
) {
    let mut step = WorkerStep::Check;
    let mut task: Option<Task> = None;
    loop {
        let event = match step {
            WorkerStep::Stop => return,
            WorkerStep::Check => WorkerEvent::Token { cancelled: cancelled(store) },
            WorkerStep::Handle(_) => {
                let ok = handler(store, task.as_ref().unwrap());
                WorkerEvent::Handled { ok }
            }
            WorkerStep::Wait { .. } => {
                store.advance(worker.poll_interval);
                WorkerEvent::Elapsed
            }
            WorkerStep::Claim => {
                let (event, claimed) = worker.perform(store, step);
                task = claimed;
                event
            }
            _ => worker.perform(store, step).0,
        };
        step = worker.next(step, event, false);
    }
}

/// Runs a subscriber for some rounds.
fn run_subscriber(
    subscriber: &Subscriber,
    store: &mut Store,
    rounds: usize,
    mut handler: impl FnMut(&StateEvent) -> bool,
) {
    let mut step = SubscriberStep::first();
    let mut batch: Vec<OutboxRow> = Vec::new();
    let mut checks = 0;
    loop {
        let event = match step {
            SubscriberStep::Stop => return,
            SubscriberStep::Check => {
                checks += 1;
                SubscriberEvent::Token { cancelled: checks > rounds }
            }
            SubscriberStep::Handle { index, .. } => {
                let event = StateEvent::from(batch[index].clone());
                SubscriberEvent::Handled { ok: handler(&event) }
            }
            SubscriberStep::Wait { .. } => {
                store.advance(subscriber.poll_interval);
                SubscriberEvent::Elapsed
            }
            SubscriberStep::Pause => SubscriberEvent::Elapsed,
            _ => {
                let (event, read) = subscriber.perform(store, step, &batch);
                if let Some(rows) = read {
                    batch = rows;
                }
                event.unwrap()
            }
        };
        step = step.next(event, false);
    }
}

#[test]
fn chaos_worker_crash_task_recovers() {
    let (strunk, mut store) = setup();

    let mut tx = strunk.begin(&store).unwrap();
    strunk
        .task("crash-queue")
        .payload(object(vec![("recoverable", Json::Bool(true))]))
        .submit(&mut tx, &mut store)
        .unwrap();
    tx.commit(&mut store).unwrap();

    let task = strunk.claim(&mut store, "crash-queue", Span::from_millis(200)).unwrap().unwrap();
    let task_id = task.id;

    drop(task);

    let none = strunk.claim(&mut store, "crash-queue", Span::from_secs(30)).unwrap();
    assert!(none.is_none(), "should not be claimable while visibility timeout is active");

    store.advance(Span::from_millis(300));

    let recovered =
        strunk.claim(&mut store, "crash-queue", Span::from_secs(30)).unwrap().unwrap();
    assert_eq!(recovered.id, task_id, "same task should reappear after crash");
    assert_eq!(recovered.attempts, 2, "attempt count should have incremented");
}

#[test]
fn chaos_poison_message_goes_to_dead_letter() {
    let (strunk, mut store) = setup();

    let mut tx = strunk.begin(&store).unwrap();
    strunk
        .task("poison-queue")
        .payload(object(vec![("poison", Json::Bool(true))]))
        .max_retries(3)
        .submit(&mut tx, &mut store)
        .unwrap();
    tx.commit(&mut store).unwrap();

    let worker = strunk
        .worker("poison-queue")
        .concurrency(1)
        .visibility_timeout(Span::from_millis(100))
        .poll_interval(Span::from_millis(50));
    let mut failures = 0;
    let start = store.now;
    run_worker(
        &worker,
        &mut store,
        |_, _| {
            failures += 1;
            false
        },
        |store| store.now >= start + 5_000_000,
    );

    let dead = strunk.dead_letters(&store, "poison-queue", 10).unwrap();
    assert_eq!(dead.len(), 1, "poison message should end up in dead letter");
    assert!(
        failures >= 3,
        "handler should have been called at least 3 times (max_retries), got {}",
        failures
    );
}

#[test]
fn chaos_rapid_shutdown_during_processing() {
    let (strunk, mut store) = setup();

    let items: Vec<BatchItem> = (0..100)
        .map(|i| BatchItem::new("shutdown-queue", object(vec![("i", number(i))])))
        .collect();
    let mut tx = strunk.begin(&store).unwrap();
    strunk.submit_batch(&mut tx, &mut store, items).unwrap();
    tx.commit(&mut store).unwrap();

    let worker = strunk
        .worker("shutdown-queue")
        .concurrency(4)
        .poll_interval(Span::from_millis(10));
    let mut done = 0;
    let start = store.now;
    run_worker(
        &worker,
        &mut store,
        |store, _| {
            store.advance(Span::from_millis(10));
            done += 1;
            true
        },
        |store| store.now >= start + 100_000,
    );

    let pending = strunk.pending_count(&store, "shutdown-queue").unwrap();
    assert!(done > 0, "should have completed some tasks before shutdown");
    assert_eq!(
        done + pending,
        100,
        "no tasks should be lost (completed + pending = 100), got {} + {}",
        done,
        pending
    );
}

#[test]
fn chaos_concurrent_reaper_and_workers() {
    let (strunk, mut store) = setup();

    let items: Vec<BatchItem> = (0..200)
        .map(|i| BatchItem::new("reaper-race-queue", object(vec![("i", number(i))])))
        .collect();
    let mut tx = strunk.begin(&store).unwrap();
    strunk.submit_batch(&mut tx, &mut store, items).unwrap();
    tx.commit(&mut store).unwrap();

    let reaper = strunk
        .reaper()
        .retention_delivered(Span::from_millis(100))
        .retention_dead(Span::from_millis(100))
        .interval(Span::from_millis(200));
    let worker = strunk
        .worker("reaper-race-queue")
        .concurrency(4)
        .poll_interval(Span::from_millis(10));

    let mut completed = 0;
    let start = store.now;
    let mut last_reaped = start;
    run_worker(
        &worker,
        &mut store,
        |store, _| {
            store.advance(Span::from_millis(5));
            if store.now >= last_reaped + 200_000 {
                reaper.reap_once(store).unwrap();
                last_reaped = store.now;
            }
            completed += 1;
            true
        },
        |store| store.now >= start + 30_000_000,
    );

    assert_eq!(completed, 200);
}

#[test]
fn chaos_subscriber_crash_and_resume() {
    let (mut strunk, mut store) = setup();
    strunk
        .register_schema("event", "1.0", &schema(vec![("seq", "integer")], vec!["seq"]))
        .unwrap();

    for i in 0..20 {
        let mut tx = strunk.begin(&store).unwrap();
        strunk
            .event("event", &i.to_string())
            .state(object(vec![("seq", number(i))]))
            .schema_version("1.0")
            .publish(&mut tx, &mut store)
            .unwrap();
        tx.commit(&mut store).unwrap();
    }

    let crash_at = 7;
    let subscriber = strunk
        .subscriber("crash-sub", "event")
        .poll_interval(Span::from_millis(50));
    let mut before = Vec::new();
    run_subscriber(&subscriber, &mut store, 10, |event| {
        let seq = field(&event.state, "seq").clone();
        if seq == number(crash_at) {
            return false;
        }
        before.push(seq);
        true
    });
    assert_eq!(
        before.len(),
        crash_at as usize,
        "should have processed {} before crash, got {}",
        crash_at,
        before.len()
    );

    let subscriber = strunk
        .subscriber("crash-sub", "event")
        .poll_interval(Span::from_millis(50));
    let mut after = Vec::new();
    run_subscriber(&subscriber, &mut store, 20, |event| {
        after.push(field(&event.state, "seq").clone());
        true
    });
    assert!(!after.is_empty(), "resumed subscriber should process remaining changes");
    assert_eq!(
        after.first().unwrap(),
        &number(crash_at),
        "should resume from the crash point (seq {})",
        crash_at
    );
}

#[test]
fn chaos_transaction_rollback_under_load() {
    let (strunk, mut store) = setup();

    let mut successful = 0i64;
    for i in 0..50 {
        let mut tx = strunk.begin(&store).unwrap();
        strunk
            .task("rollback-queue")
            .payload(object(vec![("i", number(i))]))
            .submit(&mut tx, &mut store)
            .unwrap();

        if i % 3 == 0 {
            drop(tx);
        } else {
            tx.commit(&mut store).unwrap();
            successful += 1;
        }
    }

    let count = strunk.pending_count(&store, "rollback-queue").unwrap();
    assert_eq!(count, successful, "only committed tasks should be visible");
}

#[test]
fn chaos_many_queues_isolation() {
    let (strunk, mut store) = setup();

    let queue_count = 20;
    let tasks_per_queue = 10;

    let mut tx = strunk.begin(&store).unwrap();
    for q in 0..queue_count {
        for t in 0..tasks_per_queue {
            strunk
                .task(&format!("iso-queue-{}", q))
                .payload(object(vec![("queue", number(q)), ("task", number(t))]))
                .submit(&mut tx, &mut store)
                .unwrap();
        }
    }
    tx.commit(&mut store).unwrap();

    let mut total = 0;
    for q in 0..queue_count {
        let queue_name = format!("iso-queue-{}", q);
        let mut count = 0;
        while let Some(task) = claim(&mut store, &queue_name, Span::from_secs(30)).unwrap() {
            assert_eq!(field(&task.payload, "queue"), &number(q), "got task from wrong queue");
            complete(&mut store, task.id).unwrap();
            count += 1;
        }
        assert_eq!(
            count, tasks_per_queue,
            "each queue should have exactly {} tasks",
            tasks_per_queue
        );
        total += count;
    }
    assert_eq!(total, queue_count * tasks_per_queue);
}

#[test]
fn chaos_health_degrades_with_stale_tasks() {
    let (strunk, mut store) = setup();

    let report = strunk.health(&store, Span::from_secs(1)).unwrap();
    assert!(report.healthy, "empty system should be healthy");

    let mut tx = strunk.begin(&store).unwrap();
    strunk
        .task("stale-queue")
        .payload(object(vec![("will_get_stale", Json::Bool(true))]))
        .submit(&mut tx, &mut store)
        .unwrap();
    tx.commit(&mut store).unwrap();

    store.advance(Span::from_secs(600));

    let report = strunk.health(&store, Span::from_secs(300)).unwrap();
    assert!(
        !report.healthy,
        "system should be unhealthy with 10-minute-old pending task and 5-minute threshold"
    );
    assert!(report.oldest_pending_age_secs.unwrap() >= 500);
}

#[test]
fn chaos_reaper_under_high_delivery_rate() {
    let (strunk, mut store) = setup();

    let items: Vec<BatchItem> = (0..500)
        .map(|i| BatchItem::new("reaper-load-queue", object(vec![("i", number(i))])))
        .collect();
    let mut tx = strunk.begin(&store).unwrap();
    strunk.submit_batch(&mut tx, &mut store, items).unwrap();
    tx.commit(&mut store).unwrap();

    let worker = strunk
        .worker("reaper-load-queue")
        .concurrency(4)
        .poll_interval(Span::from_millis(10));
    let reaper = strunk
        .reaper()
        .retention_delivered(Span::from_millis(50))
        .retention_dead(Span::from_millis(50))
        .interval(Span::from_millis(100));

    let mut completed = 0;
    let start = store.now;
    run_worker(
        &worker,
        &mut store,
        |store, _| {
            store.advance(Span::from_millis(1));
            if completed % 100 == 99 {
                reaper.reap_once(store).unwrap();
            }
            completed += 1;
            true
        },
        |store| store.now >= start + 1_000_000,
    );
    assert_eq!(completed, 500);

    reaper.reap_once(&mut store).unwrap();

    let overall = strunk.overall_stats(&store).unwrap();
    assert!(
        overall.table_size < 500,
        "reaper should have cleaned up some delivered rows, got {}",
        overall.table_size
    );
}
