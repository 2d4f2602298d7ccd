use std::collections::HashSet;

use strunk::change_feed::Subscriber;
use strunk::json::{Member, Number};
use strunk::subscriber::{SubscriberEvent, SubscriberStep};
use strunk::task_queue::{claim, complete, submit_batch, Worker};
use strunk::worker::{WorkerEvent, WorkerStep};
use strunk::{BatchItem, Json, OutboxRow, Span, StateEvent, Store, Strunk, StrunkConfig, Task};

fn setup() -> (Strunk, Store) {
    (Strunk::new(StrunkConfig::default()), Store::new(1_700_000_000_000_000))
}

fn number(value: i64) -> Json {
    if value >= 0 {
        Json::Number(Number::PosInt(value as u64))
    } else {
        Json::Number(Number::NegInt(value))
    }
}

fn text(value: &str) -> Json {
    Json::String(value.to_string())
}

fn object(members: Vec<(&str, Json)>) -> Json {
    Json::object(
        members
            .into_iter()
            .map(|(name, value)| Member { name: name.to_string(), value })
            .collect(),
    )
}

fn field<'a>(value: &'a Json, name: &str) -> &'a Json {
    value.get(name).unwrap()
}

fn schema(fields: Vec<(&str, &str)>, required: Vec<&str>) -> Json {
    let properties = fields
        .into_iter()
        .map(|(name, kind)| (name, object(vec![("type", text(kind))])))
        .collect();
    object(vec![
        ("properties", object(properties)),
        ("required", Json::array(required.into_iter().map(text).collect())),
    ])
}

/// Runs a worker until it is told to stop.
fn run_worker(
    worker: &Worker,
    store: &mut Store,
    mut handler: impl FnMut(&mut Store, &Task) -> bool,
    mut cancelled: impl FnMut(&Store) -> bool,
) {
    let mut step = WorkerStep::Check;
    let mut task: Option<Task> = None;
    loop {
        let event = match step {
            WorkerStep::Stop => return,
            WorkerStep::Check => WorkerEvent::Token { cancelled: cancelled(store) },
            WorkerStep::Handle(_) => {
                let ok = handler(store, task.as_ref().unwrap());
                WorkerEvent::Handled { ok }
            }
            WorkerStep::Wait { .. } => {
                store.advance(worker.poll_interval);
                WorkerEvent::Elapsed
            }
            WorkerStep::Claim => {
                let (event, claimed) = worker.perform(store, step);
                task = claimed;
                event
            }
            _ => worker.perform(store, step).0,
        };
        step = worker.next(step, event, false);
    }
}

/// Runs a subscriber for some rounds.
fn run_subscriber(
    subscriber: &Subscriber,
    store: &mut Store,
    rounds: usize,
    mut handler: impl FnMut(&StateEvent) -> bool,
) {
    let mut step = SubscriberStep::first();
    let mut batch: Vec<OutboxRow> = Vec::new();
    let mut checks = 0;
    loop {
        let event = match step {
            SubscriberStep::Stop => return,
            SubscriberStep::Check => {
                checks += 1;
                SubscriberEvent::Token { cancelled: checks > rounds }
            }
            SubscriberStep::Handle { index, .. } => {
                let event = StateEvent::from(batch[index].clone());
                SubscriberEvent::Handled { ok: handler(&event) }
            }
            SubscriberStep::Wait { .. } => {
                store.advance(subscriber.poll_interval);
                SubscriberEvent::Elapsed
            }
            SubscriberStep::Pause => SubscriberEvent::Elapsed,
            _ => {
                let (event, read) = subscriber.perform(store, step, &batch);
                if let Some(rows) = read {
                    batch = rows;
                }
                event.unwrap()
            }
        };
        step = step.next(event, false);
    }
}

#[test]
fn stress_concurrent_submit_1000_tasks() {
    let (strunk, mut store) = setup();

    for i in 0..10 {
        let items: Vec<BatchItem> = (0..100)
            .map(|j| {
                BatchItem::new(
                    "stress-queue",
                    object(vec![("batch", number(i)), ("item", number(j))]),
                )
            })
            .collect();
        let mut tx = store.begin();
        submit_batch(&mut tx, &mut store, items).unwrap();
        tx.commit(&mut store).unwrap();
    }

    let count = strunk.pending_count(&store, "stress-queue").unwrap();
    assert_eq!(count, 1000, "all 1000 tasks should be pending");
}

#[test]
fn stress_concurrent_claim_no_duplicates() {
    let (strunk, mut store) = setup();

    let task_count = 200;
    let worker_count = 20;

    let items: Vec<BatchItem> = (0..task_count)
        .map(|i| BatchItem::new("nodupe-queue", object(vec![("i", number(i))])))
        .collect();
    let mut tx = strunk.begin(&store).unwrap();
    strunk.submit_batch(&mut tx, &mut store, items).unwrap();
    tx.commit(&mut store).unwrap();

    let mut ids = Vec::new();
    let mut busy = worker_count;
    while busy > 0 {
        busy = 0;
        for _ in 0..worker_count {
            if let Some(task) = claim(&mut store, "nodupe-queue", Span::from_secs(30)).unwrap() {
                ids.push(task.id);
                complete(&mut store, task.id).unwrap();
                busy += 1;
            }
        }
    }

    let unique: HashSet<_> = ids.iter().collect();
    assert_eq!(ids.len(), task_count as usize, "should have claimed all {} tasks", task_count);
    assert_eq!(unique.len(), task_count as usize, "no duplicates allowed");
}

#[test]
fn stress_worker_throughput() {
    let (strunk, mut store) = setup();

    let task_count = 500;
    let items: Vec<BatchItem> = (0..task_count)
        .map(|i| BatchItem::new("throughput-queue", object(vec![("i", number(i))])))
        .collect();
    let mut tx = strunk.begin(&store).unwrap();
    strunk.submit_batch(&mut tx, &mut store, items).unwrap();
    tx.commit(&mut store).unwrap();

    let worker = strunk
        .worker("throughput-queue")
        .concurrency(8)
        .poll_interval(Span::from_millis(10));
    let mut completed = 0;
    let start = store.now;
    run_worker(
        &worker,
        &mut store,
        |_, _| {
            completed += 1;
            true
        },
        |store| store.now > start,
    );
    assert_eq!(completed, task_count);

    let pending = strunk.pending_count(&store, "throughput-queue").unwrap();
    assert_eq!(pending, 0, "all tasks should be processed");
}

#[test]
fn stress_large_batch_insert() {
    let (strunk, mut store) = setup();

    let batch_size = 5000;
    let items: Vec<BatchItem> = (0..batch_size)
        .map(|i| {
            BatchItem::new("bigbatch-queue", object(vec![("i", number(i))]))
                .priority(i as i32 % 10)
        })
        .collect();

    let mut tx = strunk.begin(&store).unwrap();
    let ids = strunk.submit_batch(&mut tx, &mut store, items).unwrap();
    tx.commit(&mut store).unwrap();

    assert_eq!(ids.len(), batch_size as usize);

    let first = strunk.claim(&mut store, "bigbatch-queue", Span::from_secs(30)).unwrap().unwrap();
    match field(&first.payload, "i") {
        Json::Number(Number::PosInt(i)) => {
            assert_eq!(i % 10, 9, "highest priority should come first")
        }
        other => panic!("no number: {:?}", other),
    }
}

#[test]
fn stress_rapid_publish_subscribe() {
    let (mut strunk, mut store) = setup();
    strunk
        .register_schema("tick", "1.0", &schema(vec![("seq", "integer")], vec!["seq"]))
        .unwrap();

    let publish_count = 500;
    for i in 0..publish_count {
        let mut tx = strunk.begin(&store).unwrap();
        strunk
            .event("tick", &(i % 10).to_string())
            .state(object(vec![("seq", number(i))]))
            .schema_version("1.0")
            .publish(&mut tx, &mut store)
            .unwrap();
        tx.commit(&mut store).unwrap();
    }

    let subscriber = strunk
        .subscriber("rapid-sub", "tick")
        .poll_interval(Span::from_millis(10))
        .batch_size(100);
    let mut received = 0;
    run_subscriber(&subscriber, &mut store, 10, |_| {
        received += 1;
        true
    });
    assert_eq!(received, publish_count);
}

#[test]
fn stress_stats_under_load() {
    let (strunk, mut store) = setup();

    let items: Vec<BatchItem> = (0..100)
        .map(|i| BatchItem::new("stats-load-queue", object(vec![("i", number(i))])))
        .collect();
    let mut tx = strunk.begin(&store).unwrap();
    strunk.submit_batch(&mut tx, &mut store, items).unwrap();
    tx.commit(&mut store).unwrap();

    for _ in 0..5 {
        for _ in 0..10 {
            let claimed = claim(&mut store, "stats-load-queue", Span::from_secs(30)).unwrap();
            let stats = strunk.queue_stats(&store, "stats-load-queue").unwrap();
            assert!(stats.pending + stats.claimed + stats.delivered <= 100);
            if let Some(task) = claimed {
                complete(&mut store, task.id).unwrap();
            }
        }
    }

    let overall = strunk.overall_stats(&store).unwrap();
    assert!(overall.total_delivered > 0);
}
