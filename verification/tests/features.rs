use std::cell::Cell;
use std::time::{SystemTime, UNIX_EPOCH};

use strunk::json::{Member, Number};
use strunk::scheduler::{tick, tick_at};
use strunk::task_queue::{claim, complete_with_result as store_result, heartbeat, Worker};
use strunk::worker::{WorkerEvent, WorkerStep};
use strunk::{Json, Span, Store, Strunk, StrunkConfig, Task};

fn setup() -> (Strunk, Store) {
    (Strunk::new(StrunkConfig::default()), Store::new(1_700_000_000_000_000))
}

fn number(value: i64) -> Json {
    if value >= 0 {
        Json::Number(Number::PosInt(value as u64))
    } else {
        Json::Number(Number::NegInt(value))
    }
}

fn text(value: &str) -> Json {
    Json::String(value.to_string())
}

fn object(members: Vec<(&str, Json)>) -> Json {
    Json::object(
        members
            .into_iter()
            .map(|(name, value)| Member { name: name.to_string(), value })
            .collect(),
    )
}

fn field<'a>(value: &'a Json, name: &str) -> &'a Json {
    value.get(name).unwrap()
}

/// Runs a worker until it is told to stop.
fn run_worker(
    worker: &Worker,
    store: &mut Store,
    mut handler: impl FnMut(&mut Store, &Task) -> bool,
    mut cancelled: impl FnMut(&Store) -> bool,
) {
    let mut step = WorkerStep::Check;
    let mut task: Option<Task> = None;
    loop {
        let event = match step {
            WorkerStep::Stop => return,
            WorkerStep::Check => WorkerEvent::Token { cancelled: cancelled(store) },
            WorkerStep::Handle(_) => {
                let ok = handler(store, task.as_ref().unwrap());
                WorkerEvent::Handled { ok }
            }
            WorkerStep::Wait { .. } => {
                store.advance(worker.poll_interval);
                WorkerEvent::Elapsed
            }
            WorkerStep::Claim => {
                let (event, claimed) = worker.perform(store, step);
                task = claimed;
                event
            }
            _ => worker.perform(store, step).0,
        };
        step = worker.next(step, event, false);
    }
}

/// A store whose clock agrees with the system's.
fn setup_now() -> (Strunk, Store) {
    let since = SystemTime::now().duration_since(UNIX_EPOCH).unwrap();
    (Strunk::new(StrunkConfig::default()), Store::new(since.as_micros() as i64))
}

#[test]
fn heartbeat_extends_visibility() {
    let (strunk, mut store) = setup();

    let mut tx = strunk.begin(&store).unwrap();
    strunk
        .task("hb-queue")
        .payload(object(vec![("long_running", Json::Bool(true))]))
        .submit(&mut tx, &mut store)
        .unwrap();
    tx.commit(&mut store).unwrap();

    let task = strunk.claim(&mut store, "hb-queue", Span::from_millis(200)).unwrap().unwrap();

    store.advance(Span::from_millis(100));
    strunk.heartbeat(&mut store, task.id, Span::from_secs(5)).unwrap();

    store.advance(Span::from_millis(200));

    let stolen = strunk.claim(&mut store, "hb-queue", Span::from_secs(30)).unwrap();
    assert!(
        stolen.is_none(),
        "heartbeat should have extended visibility, task should not be reclaimable"
    );

    strunk.complete(&mut store, task.id).unwrap();
}

#[test]
fn progress_tracking() {
    let (strunk, mut store) = setup();

    let mut tx = strunk.begin(&store).unwrap();
    strunk
        .task("progress-queue")
        .payload(object(vec![("trackable", Json::Bool(true))]))
        .submit(&mut tx, &mut store)
        .unwrap();
    tx.commit(&mut store).unwrap();

    let task = strunk.claim(&mut store, "progress-queue", Span::from_secs(30)).unwrap().unwrap();

    let p = strunk.get_progress(&store, task.id).unwrap().unwrap();
    assert_eq!(p, 0);

    strunk.set_progress(&mut store, task.id, 50).unwrap();
    let p = strunk.get_progress(&store, task.id).unwrap().unwrap();
    assert_eq!(p, 50);

    strunk.set_progress(&mut store, task.id, 100).unwrap();
    let p = strunk.get_progress(&store, task.id).unwrap().unwrap();
    assert_eq!(p, 100);

    strunk.set_progress(&mut store, task.id, 150).unwrap();
    let p = strunk.get_progress(&store, task.id).unwrap().unwrap();
    assert_eq!(p, 100, "progress should be clamped to 100");
}

#[test]
fn complete_with_result() {
    let (strunk, mut store) = setup();

    let mut tx = strunk.begin(&store).unwrap();
    let task_id = strunk
        .task("result-queue")
        .payload(object(vec![("compute", text("something"))]))
        .submit(&mut tx, &mut store)
        .unwrap();
    tx.commit(&mut store).unwrap();

    let task = strunk.claim(&mut store, "result-queue", Span::from_secs(30)).unwrap().unwrap();

    strunk
        .complete_with_result(
            &mut store,
            task.id,
            "result-queue",
            object(vec![("answer", number(42)), ("status", text("success"))]),
        )
        .unwrap();

    let result = strunk.get_result(&store, task_id).unwrap().unwrap();
    assert_eq!(result.task_id, task_id);
    assert_eq!(result.queue, "result-queue");
    assert_eq!(field(&result.result, "answer"), &number(42));
}

#[test]
fn get_result_missing_returns_none() {
    let (strunk, store) = setup();

    let result = strunk.get_result(&store, 999999).unwrap();
    assert!(result.is_none());
}

#[test]
fn task_exposes_max_retries() {
    let (strunk, mut store) = setup();

    let mut tx = strunk.begin(&store).unwrap();
    strunk
        .task("retries-queue")
        .payload(Json::empty_object())
        .max_retries(7)
        .submit(&mut tx, &mut store)
        .unwrap();
    tx.commit(&mut store).unwrap();

    let task = strunk.claim(&mut store, "retries-queue", Span::from_secs(30)).unwrap().unwrap();
    assert_eq!(task.max_retries, 7);
}

#[test]
fn schedule_register_and_list() {
    let (strunk, mut store) = setup_now();

    strunk
        .schedule("daily-report", "reports", "every 1d")
        .payload(object(vec![("type", text("daily"))]))
        .priority(3)
        .register(&mut store)
        .unwrap();

    strunk.schedule("hourly-sync", "sync", "@hourly").register(&mut store).unwrap();

    let schedules = strunk.list_schedules(&store).unwrap();
    assert_eq!(schedules.len(), 2);

    let daily = schedules.iter().find(|s| s.id == "daily-report").unwrap();
    assert_eq!(daily.queue, "reports");
    assert_eq!(daily.priority, 3);
    assert!(daily.enabled);
}

#[test]
fn schedule_disable_and_enable() {
    let (strunk, mut store) = setup_now();

    strunk.schedule("toggle-sched", "queue", "every 1h").register(&mut store).unwrap();

    strunk.disable_schedule(&mut store, "toggle-sched").unwrap();
    let schedules = strunk.list_schedules(&store).unwrap();
    assert!(!schedules[0].enabled);

    strunk.enable_schedule(&mut store, "toggle-sched").unwrap();
    let schedules = strunk.list_schedules(&store).unwrap();
    assert!(schedules[0].enabled);
}

#[test]
fn schedule_remove() {
    let (strunk, mut store) = setup_now();

    strunk.schedule("temp-sched", "queue", "every 5m").register(&mut store).unwrap();

    strunk.remove_schedule(&mut store, "temp-sched").unwrap();
    let schedules = strunk.list_schedules(&store).unwrap();
    assert!(schedules.is_empty());
}

#[test]
fn scheduler_fires_due_tasks() {
    let (strunk, mut store) = setup_now();

    strunk
        .schedule("fire-test", "sched-queue", "every 30s")
        .payload(object(vec![("scheduled", Json::Bool(true))]))
        .register(&mut store)
        .unwrap();

    store.advance(Span::from_secs(31));

    let scheduler = strunk.scheduler().interval(Span::from_millis(100));
    for _ in 0..5 {
        tick(&mut store).unwrap();
        store.advance(scheduler.interval);
    }

    let count = strunk.pending_count(&store, "sched-queue").unwrap();
    assert!(count >= 1, "scheduler should have fired at least one task, got {}", count);

    let task = strunk.claim(&mut store, "sched-queue", Span::from_secs(30)).unwrap().unwrap();
    assert_eq!(field(&task.payload, "scheduled"), &Json::Bool(true));
}

#[test]
fn scheduler_does_not_double_fire() {
    let (strunk, mut store) = setup_now();
    let clock = store.now;

    strunk
        .schedule("dedup-fire", "dedup-sched-queue", "every 30s")
        .register_at(&mut store, clock)
        .unwrap();

    store.advance(Span::from_secs(31));

    for _ in 0..5 {
        tick_at(&mut store, clock).unwrap();
        tick_at(&mut store, clock).unwrap();
        store.advance(Span::from_millis(100));
    }

    let count = strunk.pending_count(&store, "dedup-sched-queue").unwrap();
    assert_eq!(count, 1, "two schedulers should not double-fire, got {}", count);
}

#[test]
fn schedule_update_on_re_register() {
    let (strunk, mut store) = setup_now();

    strunk
        .schedule("evolving", "queue-v1", "every 1h")
        .payload(object(vec![("version", number(1))]))
        .register(&mut store)
        .unwrap();

    strunk
        .schedule("evolving", "queue-v2", "every 30m")
        .payload(object(vec![("version", number(2))]))
        .priority(5)
        .register(&mut store)
        .unwrap();

    let schedules = strunk.list_schedules(&store).unwrap();
    assert_eq!(schedules.len(), 1);
    assert_eq!(schedules[0].queue, "queue-v2");
    assert_eq!(schedules[0].priority, 5);
}

#[test]
fn worker_with_result_storage() {
    let (strunk, mut store) = setup();

    let mut tx = strunk.begin(&store).unwrap();
    let task_id = strunk
        .task("compute-queue")
        .payload(object(vec![("x", number(6)), ("y", number(7))]))
        .submit(&mut tx, &mut store)
        .unwrap();
    tx.commit(&mut store).unwrap();

    let worker = strunk
        .worker("compute-queue")
        .concurrency(1)
        .poll_interval(Span::from_millis(50));
    let completed = Cell::new(0);
    run_worker(
        &worker,
        &mut store,
        |store, task| {
            let (x, y) = match (field(&task.payload, "x"), field(&task.payload, "y")) {
                (Json::Number(Number::PosInt(x)), Json::Number(Number::PosInt(y))) => (*x, *y),
                other => panic!("no numbers: {:?}", other),
            };
            let result = object(vec![("product", number((x * y) as i64))]);
            store_result(store, task.id, &task.queue, result).unwrap();
            completed.set(completed.get() + 1);
            false
        },
        |_| completed.get() >= 1,
    );

    let result = strunk.get_result(&store, task_id).unwrap().unwrap();
    assert_eq!(field(&result.result, "product"), &number(42));
}

#[test]
fn heartbeat_in_worker_prevents_timeout() {
    let (strunk, mut store) = setup();

    let mut tx = strunk.begin(&store).unwrap();
    strunk
        .task("slow-queue")
        .payload(object(vec![("slow", Json::Bool(true))]))
        .submit(&mut tx, &mut store)
        .unwrap();
    tx.commit(&mut store).unwrap();

    let worker = strunk
        .worker("slow-queue")
        .concurrency(1)
        .visibility_timeout(Span::from_millis(300))
        .poll_interval(Span::from_millis(50));
    let completed = Cell::new(0);
    run_worker(
        &worker,
        &mut store,
        |store, task| {
            for _ in 0..5 {
                store.advance(Span::from_millis(100));
                heartbeat(store, task.id, Span::from_millis(500)).unwrap();
                let stolen = claim(store, "slow-queue", Span::from_millis(300)).unwrap();
                assert!(stolen.is_none());
            }
            completed.set(completed.get() + 1);
            true
        },
        |_| completed.get() >= 1,
    );

    let pending = strunk.pending_count(&store, "slow-queue").unwrap();
    assert_eq!(pending, 0, "task should have completed successfully with heartbeats");
}

#[test]
fn cron_expression_formats() {
    let (strunk, mut store) = setup_now();

    strunk.schedule("s1", "q", "every 30s").register(&mut store).unwrap();
    strunk.schedule("s2", "q", "every 5m").register(&mut store).unwrap();
    strunk.schedule("s3", "q", "every 2h").register(&mut store).unwrap();
    strunk.schedule("s4", "q", "every 1d").register(&mut store).unwrap();
    strunk.schedule("s5", "q", "@hourly").register(&mut store).unwrap();
    strunk.schedule("s6", "q", "@daily").register(&mut store).unwrap();
    strunk.schedule("s7", "q", "@weekly").register(&mut store).unwrap();
    strunk.schedule("s8", "q", "30s").register(&mut store).unwrap();
    strunk.schedule("s9", "q", "5m").register(&mut store).unwrap();

    let schedules = strunk.list_schedules(&store).unwrap();
    assert_eq!(schedules.len(), 9, "all schedule formats should be accepted");
}

#[test]
fn invalid_cron_rejected() {
    let (strunk, mut store) = setup_now();

    let result = strunk.schedule("bad", "q", "").register(&mut store);
    assert!(result.is_err());
}
