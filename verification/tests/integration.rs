use strunk::json::{Member, Number};
use strunk::task_queue::Worker;
use strunk::worker::{WorkerEvent, WorkerStep};
use strunk::{BatchItem, Json, Span, Store, Strunk, StrunkConfig, Task};

fn setup() -> (Strunk, Store) {
    (Strunk::new(StrunkConfig::default()), Store::new(1_700_000_000_000_000))
}

fn number(value: i64) -> Json {
    if value >= 0 {
        Json::Number(Number::PosInt(value as u64))
    } else {
        Json::Number(Number::NegInt(value))
    }
}

fn text(value: &str) -> Json {
    Json::String(value.to_string())
}

fn object(members: Vec<(&str, Json)>) -> Json {
    Json::object(
        members
            .into_iter()
            .map(|(name, value)| Member { name: name.to_string(), value })
            .collect(),
    )
}

fn field<'a>(value: &'a Json, name: &str) -> &'a Json {
    value.get(name).unwrap()
}

fn schema(fields: Vec<(&str, &str)>, required: Vec<&str>) -> Json {
    let properties = fields
        .into_iter()
        .map(|(name, kind)| (name, object(vec![("type", text(kind))])))
        .collect();
    object(vec![
        ("properties", object(properties)),
        ("required", Json::array(required.into_iter().map(text).collect())),
    ])
}

/// Runs a worker until it is told to stop.
fn run_worker(
    worker: &Worker,
    store: &mut Store,
    mut handler: impl FnMut(&mut Store, &Task) -> bool,
    mut cancelled: impl FnMut(&Store) -> bool,
) {
    let mut step = WorkerStep::Check;
    let mut task: Option<Task> = None;
    loop {
        let event = match step {
            WorkerStep::Stop => return,
            WorkerStep::Check => WorkerEvent::Token { cancelled: cancelled(store) },
            WorkerStep::Handle(_) => {
                let ok = handler(store, task.as_ref().unwrap());
                WorkerEvent::Handled { ok }
            }
            WorkerStep::Wait { .. } => {
                store.advance(worker.poll_interval);
                WorkerEvent::Elapsed
            }
            WorkerStep::Claim => {
                let (event, claimed) = worker.perform(store, step);
                task = claimed;
                event
            }
            _ => worker.perform(store, step).0,
        };
        step = worker.next(step, event, false);
    }
}

fn order_schema() -> Json {
    schema(
        vec![("id", "integer"), ("status", "string"), ("total", "number")],
        vec!["id", "status", "total"],
    )
}

fn float(value: f64) -> Json {
    Json::Number(Number::Float(value.to_bits()))
}

#[test]
fn task_submit_and_claim() {
    let (strunk, mut store) = setup();

    let mut tx = strunk.begin(&store).unwrap();
    let id = strunk
        .task("test-queue")
        .payload(object(vec![("action", text("send_email"))]))
        .priority(5)
        .max_retries(2)
        .submit(&mut tx, &mut store)
        .unwrap();
    tx.commit(&mut store).unwrap();

    assert!(id > 0);

    let task = strunk
        .claim(&mut store, "test-queue", Span::from_secs(30))
        .unwrap()
        .expect("should have a task to claim");

    assert_eq!(task.id, id);
    assert_eq!(task.queue, "test-queue");
    assert_eq!(field(&task.payload, "action"), &text("send_email"));
    assert_eq!(task.attempts, 1);

    strunk.complete(&mut store, task.id).unwrap();

    let next = strunk.claim(&mut store, "test-queue", Span::from_secs(30)).unwrap();
    assert!(next.is_none(), "queue should be empty after complete");
}

#[test]
fn task_fail_and_dead_letter() {
    let (strunk, mut store) = setup();

    let mut tx = strunk.begin(&store).unwrap();
    strunk
        .task("fail-queue")
        .payload(object(vec![("bad", Json::Bool(true))]))
        .max_retries(1)
        .submit(&mut tx, &mut store)
        .unwrap();
    tx.commit(&mut store).unwrap();

    let task = strunk.claim(&mut store, "fail-queue", Span::from_secs(30)).unwrap().unwrap();

    strunk.fail(&mut store, task.id, 1, task.attempts).unwrap();

    let dead = strunk.dead_letters(&store, "fail-queue", 10).unwrap();
    assert_eq!(dead.len(), 1);
    assert_eq!(dead[0].id, task.id);

    strunk.retry_dead(&mut store, task.id).unwrap();

    let retried = strunk.claim(&mut store, "fail-queue", Span::from_secs(30)).unwrap();
    assert!(retried.is_some(), "dead-lettered task should be reclaimable after retry");
}

#[test]
fn task_priority_ordering() {
    let (strunk, mut store) = setup();

    let mut tx = strunk.begin(&store).unwrap();
    for (name, priority) in [("low", 1), ("high", 10), ("medium", 5)] {
        strunk
            .task("prio-queue")
            .payload(object(vec![("name", text(name))]))
            .priority(priority)
            .submit(&mut tx, &mut store)
            .unwrap();
    }
    tx.commit(&mut store).unwrap();

    let first = strunk.claim(&mut store, "prio-queue", Span::from_secs(30)).unwrap().unwrap();
    assert_eq!(field(&first.payload, "name"), &text("high"));
    strunk.complete(&mut store, first.id).unwrap();

    let second = strunk.claim(&mut store, "prio-queue", Span::from_secs(30)).unwrap().unwrap();
    assert_eq!(field(&second.payload, "name"), &text("medium"));
    strunk.complete(&mut store, second.id).unwrap();

    let third = strunk.claim(&mut store, "prio-queue", Span::from_secs(30)).unwrap().unwrap();
    assert_eq!(field(&third.payload, "name"), &text("low"));
}

#[test]
fn event_publish_and_snapshot() {
    let (mut strunk, mut store) = setup();
    strunk.register_schema("order", "1.0", &order_schema()).unwrap();

    let mut tx = strunk.begin(&store).unwrap();
    let event_id = strunk
        .event("order", "42")
        .state(object(vec![
            ("id", number(42)),
            ("status", text("confirmed")),
            ("total", float(59.99)),
        ]))
        .schema_version("1.0")
        .publish(&mut tx, &mut store)
        .unwrap();
    tx.commit(&mut store).unwrap();

    assert!(event_id > 0);

    let state = strunk.snapshot(&store, "order", "42").unwrap();
    assert!(state.is_some());
    let state = state.unwrap();
    assert_eq!(field(&state, "status"), &text("confirmed"));
    assert_eq!(field(&state, "total"), &float(59.99));
}

#[test]
fn event_snapshot_updates() {
    let (mut strunk, mut store) = setup();
    strunk.register_schema("order", "1.0", &order_schema()).unwrap();

    for status in ["pending", "shipped"] {
        let mut tx = strunk.begin(&store).unwrap();
        strunk
            .event("order", "99")
            .state(object(vec![
                ("id", number(99)),
                ("status", text(status)),
                ("total", float(10.0)),
            ]))
            .schema_version("1.0")
            .publish(&mut tx, &mut store)
            .unwrap();
        tx.commit(&mut store).unwrap();
    }

    let state = strunk.snapshot(&store, "order", "99").unwrap().unwrap();
    assert_eq!(field(&state, "status"), &text("shipped"));
}

#[test]
fn schema_validation_rejects_bad_payload() {
    let (mut strunk, mut store) = setup();
    strunk
        .register_schema(
            "user",
            "1.0",
            &schema(vec![("id", "integer"), ("name", "string")], vec!["id", "name"]),
        )
        .unwrap();

    let mut tx = strunk.begin(&store).unwrap();
    let result = strunk
        .event("user", "1")
        .state(object(vec![("id", number(1))]))
        .schema_version("1.0")
        .publish(&mut tx, &mut store);

    assert!(result.is_err());
    let err = result.unwrap_err().message();
    assert!(err.contains("name"), "error should mention missing field 'name'");
}

#[test]
fn schema_backward_compatibility() {
    let (mut strunk, _) = setup();
    strunk
        .register_schema(
            "product",
            "1.0",
            &schema(vec![("id", "integer"), ("name", "string")], vec!["id", "name"]),
        )
        .unwrap();

    let compatible = strunk.register_schema(
        "product",
        "1.1",
        &schema(
            vec![("id", "integer"), ("name", "string"), ("description", "string")],
            vec!["id", "name"],
        ),
    );
    assert!(compatible.is_ok(), "adding optional field should be compatible");

    let incompatible = strunk.register_schema(
        "product",
        "2.0",
        &schema(vec![("id", "string"), ("name", "string")], vec!["id", "name"]),
    );
    assert!(incompatible.is_err(), "changing field type should be incompatible");
}

#[test]
fn worker_processes_tasks() {
    let (strunk, mut store) = setup();

    let mut tx = strunk.begin(&store).unwrap();
    strunk
        .task("worker-queue")
        .payload(object(vec![("value", number(42))]))
        .submit(&mut tx, &mut store)
        .unwrap();
    tx.commit(&mut store).unwrap();

    let worker = strunk
        .worker("worker-queue")
        .concurrency(1)
        .poll_interval(Span::from_millis(50));
    let mut payload = None;
    let start = store.now;
    run_worker(
        &worker,
        &mut store,
        |_, task| {
            payload = Some(task.payload.clone());
            true
        },
        |store| store.now >= start + 5_000_000,
    );

    let payload = payload.expect("worker should process within 5s");
    assert_eq!(field(&payload, "value"), &number(42));
}

#[test]
fn stats_reflect_queue_state() {
    let (strunk, mut store) = setup();

    let mut tx = strunk.begin(&store).unwrap();
    for i in 0..5 {
        strunk
            .task("stats-queue")
            .payload(object(vec![("i", number(i))]))
            .submit(&mut tx, &mut store)
            .unwrap();
    }
    tx.commit(&mut store).unwrap();

    let stats = strunk.queue_stats(&store, "stats-queue").unwrap();
    assert_eq!(stats.pending, 5);
    assert_eq!(stats.claimed, 0);
    assert_eq!(stats.dead, 0);

    let task = strunk.claim(&mut store, "stats-queue", Span::from_secs(30)).unwrap().unwrap();
    strunk.complete(&mut store, task.id).unwrap();

    let stats = strunk.queue_stats(&store, "stats-queue").unwrap();
    assert_eq!(stats.pending, 4);
    assert_eq!(stats.delivered, 1);

    let overall = strunk.overall_stats(&store).unwrap();
    assert!(overall.total_pending >= 4);
}

#[test]
fn transaction_atomicity() {
    let (strunk, mut store) = setup();

    let mut tx = strunk.begin(&store).unwrap();
    strunk
        .task("atomic-queue")
        .payload(object(vec![("will", text("rollback"))]))
        .submit(&mut tx, &mut store)
        .unwrap();
    drop(tx);

    let task = strunk.claim(&mut store, "atomic-queue", Span::from_secs(30)).unwrap();
    assert!(task.is_none(), "dropped transaction should not leave visible tasks");
}

#[test]
fn batch_submit() {
    let (strunk, mut store) = setup();

    let items = (0..10)
        .map(|i| {
            BatchItem::new("batch-queue", object(vec![("index", number(i))])).priority(i as i32)
        })
        .collect();

    let mut tx = strunk.begin(&store).unwrap();
    let ids = strunk.submit_batch(&mut tx, &mut store, items).unwrap();
    tx.commit(&mut store).unwrap();

    assert_eq!(ids.len(), 10);

    let first = strunk.claim(&mut store, "batch-queue", Span::from_secs(30)).unwrap().unwrap();
    assert_eq!(field(&first.payload, "index"), &number(9), "highest priority should come first");
}

#[test]
fn health_check() {
    let (strunk, store) = setup();

    let report = strunk.health(&store, Span::from_secs(300)).unwrap();
    assert!(report.healthy);
    assert_eq!(report.pending, 0);
}
