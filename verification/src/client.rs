//! The library as a whole: its settings, its schemas, and everything that is done with a store.
use vstd::prelude::*;

use crate::admin;
use crate::admin::{letters_found, pending_counted, revived};
use crate::change_feed;
use crate::change_feed::ChangePublish;
use crate::config::StrunkConfig;
use crate::error::Result;
use crate::health;
use crate::health::HealthReport;
use crate::json::{Json, JsonView};
use crate::reaper::Reaper;
use crate::relay::{completed, failed, Relay};
use crate::retry::attempts_in_range;
use crate::scheduler;
use crate::scheduler::{
    lists_schedule, schedules_listed, with_enabled, Schedule, ScheduleBuilder, Scheduler,
};
use crate::schema::{registration, SchemaRegistry, SchemaView};
use crate::stats;
use crate::stats::{lag_of, subscriber_counted, OverallStats, QueueStats, SubscriberStats};
use crate::store::{Store, Transaction};
use crate::subscriber::{with_cursor, Subscriber};
use crate::task_queue;
use crate::task_queue::{
    batch_inserted, claim_made, completed_with, extended, inbox_marked, progress_found, progressed,
    result_found, BatchItem, TaskSubmit,
};
use crate::time::Span;
use crate::types::{OutboxRow, Task, TaskResult};
use crate::worker::Worker;

verus! {

/// The library, as it is set up for a service.
pub struct Strunk {
    pub config: StrunkConfig,
    pub registry: SchemaRegistry,
}

impl Strunk {
    /// Whether the registry is in order.
    pub open spec fn wf(self) -> bool {
        self.registry.wf()
    }

    pub fn new(config: StrunkConfig) -> (r: Strunk)
        ensures
            r.wf(),
            r.config == config,
            r.registry@ == Map::<Seq<char>, Map<Seq<char>, SchemaView>>::empty(),
    {
        Strunk { config, registry: SchemaRegistry::new() }
    }

    /// Registers a version of an entity type's schema.
    pub fn register_schema(&mut self, entity_type: &str, version: &str, schema: &Json) -> (r: Result<
        (),
    >)
        requires
            old(self).wf(),
        ensures
            final(self).wf(),
            final(self).config == old(self).config,
            registration(
                old(self).registry@,
                final(self).registry@,
                r,
                entity_type@,
                version@,
                schema@,
            ),
    {
        self.registry.register(entity_type, version, schema)
    }

    /// Starts a task for a queue.
    pub fn task(&self, queue: &str) -> (r: TaskSubmit)
        ensures
            r.queue@ == queue@,
            r.payload@ is Null,
            r.metadata@ == JsonView::Object(Seq::empty()),
            r.priority == 0,
            r.max_retries == 3,
            r.delay is None,
            r.dedup_key is None,
    {
        TaskSubmit::new(queue)
    }

    /// Writes a batch of tasks to a transaction, all of them or none.
    pub fn submit_batch(&self, tx: &mut Transaction, store: &mut Store, items: Vec<BatchItem>) -> (r:
        Result<Vec<i64>>)
        requires
            old(store).wf(),
            old(tx).fits(*old(store)),
        ensures
            final(store).wf(),
            final(tx).fits(*final(store)),
            batch_inserted(*old(tx), *old(store), *final(tx), *final(store), r, items@),
    {
        task_queue::submit_batch(tx, store, items)
    }

    /// Starts an event of an entity, whose state is checked against the registered schemas.
    pub fn event<'a>(&'a self, entity_type: &str, entity_id: &str) -> (r: ChangePublish<'a>)
        ensures
            r.entity_type@ == entity_type@,
            r.entity_id@ == entity_id@,
            r.state@ is Null,
            r.diff is None,
            r.schema_version@ == "1.0"@,
            r.registry == Some(&self.registry),
    {
        ChangePublish::new(entity_type, entity_id).with_registry(&self.registry)
    }

    /// The latest state of an entity.
    pub fn snapshot(&self, store: &Store, entity_type: &str, entity_id: &str) -> (r: Result<
        Option<Json>,
    >)
        requires
            store.wf(),
        ensures
            match r {
                Ok(Some(state)) => store.snapshots@.contains_key((entity_type@, entity_id@))
                    && state@ == store.snapshots@[(entity_type@, entity_id@)].state@,
                Ok(None) => !store.snapshots@.contains_key((entity_type@, entity_id@)),
                Err(e) => false,
            },
    {
        change_feed::snapshot(store, entity_type, entity_id)
    }

    /// A subscriber to an entity type.
    pub fn subscriber(&self, id: &str, entity_type: &str) -> (r: Subscriber)
        ensures
            r.id@ == id@,
            r.entity_type@ == entity_type@,
            r.schema_version@ == "1.0"@,
            r.poll_interval.micros == 100_000,
            r.batch_size == 100,
            r.database_url is Some,
            r.database_url->0@ == self.config.database_url@,
    {
        Subscriber::new(id, entity_type).database_url(self.config.database_url.as_str())
    }

    /// Claims the first task of a queue that can be claimed.
    pub fn claim(&self, store: &mut Store, queue: &str, visibility_timeout: Span) -> (r: Result<
        Option<Task>,
    >)
        requires
            old(store).wf(),
        ensures
            final(store).wf(),
            claim_made(*old(store), *final(store), r, queue@, visibility_timeout),
    {
        task_queue::claim(store, queue, visibility_timeout)
    }

    /// Marks a task as done.
    pub fn complete(&self, store: &mut Store, task_id: i64) -> (r: Result<()>)
        requires
            old(store).wf(),
        ensures
            final(store).wf(),
            r is Ok,
            completed(*old(store), *final(store), task_id),
    {
        task_queue::complete(store, task_id)
    }

    /// Marks a task as done and stores its result.
    pub fn complete_with_result(&self, store: &mut Store, task_id: i64, queue: &str, result: Json) -> (r:
        Result<()>)
        requires
            old(store).wf(),
        ensures
            final(store).wf(),
            r is Ok,
            completed_with(*old(store), *final(store), task_id, queue@, result),
    {
        task_queue::complete_with_result(store, task_id, queue, result)
    }

    /// The stored result of a task.
    pub fn get_result(&self, store: &Store, task_id: i64) -> (r: Result<Option<TaskResult>>)
        requires
            store.wf(),
        ensures
            result_found(*store, r, task_id),
    {
        task_queue::get_result(store, task_id)
    }

    /// Enters that a task has failed.
    pub fn fail(&self, store: &mut Store, task_id: i64, max_retries: i32, attempts: i32) -> (r:
        Result<()>)
        requires
            old(store).wf(),
            attempts_in_range(max_retries, attempts),
        ensures
            final(store).wf(),
            failed(*old(store), *final(store), r, task_id, max_retries, attempts),
    {
        task_queue::fail(store, task_id, max_retries, attempts)
    }

    /// Keeps a claimed task out of sight for that long from now on.
    pub fn heartbeat(&self, store: &mut Store, task_id: i64, extend_by: Span) -> (r: Result<()>)
        requires
            old(store).wf(),
        ensures
            final(store).wf(),
            extended(*old(store), *final(store), r, task_id, extend_by),
    {
        task_queue::heartbeat(store, task_id, extend_by)
    }

    /// Enters how far a claimed task has got, in percent.
    pub fn set_progress(&self, store: &mut Store, task_id: i64, progress: i16) -> (r: Result<()>)
        requires
            old(store).wf(),
        ensures
            final(store).wf(),
            r is Ok,
            progressed(*old(store), *final(store), task_id, progress),
    {
        task_queue::set_progress(store, task_id, progress)
    }

    /// How far a task has got, if there is one.
    pub fn get_progress(&self, store: &Store, task_id: i64) -> (r: Result<Option<i16>>)
        requires
            store.wf(),
        ensures
            progress_found(*store, r, task_id),
    {
        task_queue::get_progress(store, task_id)
    }

    /// A worker for a queue.
    pub fn worker(&self, queue: &str) -> (r: Worker)
        ensures
            r.queue@ == queue@,
            r.database_url is Some,
            r.database_url->0@ == self.config.database_url@,
            r.concurrency == 1,
            r.visibility_timeout.micros == 30_000_000,
            r.poll_interval.micros == 100_000,
            r.inbox_id is None,
    {
        Worker::new(queue).database_url(self.config.database_url.as_str())
    }

    /// The reaper, as set up.
    pub fn reaper(&self) -> (r: Reaper)
        ensures
            r.retention_delivered == self.config.reaper_retention_delivered,
            r.retention_dead == self.config.reaper_retention_dead,
            r.batch_size == self.config.reaper_batch_size,
            r.interval == self.config.reaper_interval,
    {
        Reaper::new().retention_delivered(
            self.config.reaper_retention_delivered,
        ).retention_dead(self.config.reaper_retention_dead).batch_size(
            self.config.reaper_batch_size,
        ).interval(self.config.reaper_interval)
    }

    /// The relay, as set up.
    pub fn relay(&self) -> (r: Relay)
        ensures
            r.poll_interval == self.config.poll_interval,
            r.batch_size == self.config.relay_batch_size,
    {
        Relay::new(self.config.poll_interval, self.config.relay_batch_size)
    }

    /// Starts a schedule.
    pub fn schedule(&self, id: &str, queue: &str, cron: &str) -> (r: ScheduleBuilder)
        ensures
            r.id@ == id@,
            r.queue@ == queue@,
            r.payload@ == JsonView::Object(Seq::empty()),
            r.cron@ == cron@,
            r.max_retries == 3,
            r.priority == 0,
    {
        ScheduleBuilder::new(id, queue, cron)
    }

    /// The scheduler.
    pub fn scheduler(&self) -> (r: Scheduler)
        ensures
            r.interval.micros == 30_000_000,
    {
        Scheduler::new()
    }

    /// All schedules, by the time at which they are to fire next.
    pub fn list_schedules(&self, store: &Store) -> (r: Result<Vec<Schedule>>)
        requires
            store.wf(),
        ensures
            r is Ok,
            schedules_listed(store.schedules@, None, r->Ok_0@.len() as int, r->Ok_0@),
            forall|id: Seq<char>| #[trigger]
                store.schedules@.contains_key(id) ==> lists_schedule(r->Ok_0@, id),
    {
        scheduler::list(store)
    }

    /// Switches a schedule off.
    pub fn disable_schedule(&self, store: &mut Store, id: &str) -> (r: Result<()>)
        requires
            old(store).wf(),
        ensures
            final(store).wf(),
            r is Ok,
            *final(store) == (Store { schedules: final(store).schedules, ..*old(store) }),
            final(store).schedules@ == with_enabled(old(store).schedules@, id@, false),
    {
        scheduler::disable(store, id)
    }

    /// Switches a schedule on.
    pub fn enable_schedule(&self, store: &mut Store, id: &str) -> (r: Result<()>)
        requires
            old(store).wf(),
        ensures
            final(store).wf(),
            r is Ok,
            *final(store) == (Store { schedules: final(store).schedules, ..*old(store) }),
            final(store).schedules@ == with_enabled(old(store).schedules@, id@, true),
    {
        scheduler::enable(store, id)
    }

    /// Removes a schedule.
    pub fn remove_schedule(&self, store: &mut Store, id: &str) -> (r: Result<()>)
        requires
            old(store).wf(),
        ensures
            final(store).wf(),
            r is Ok,
            *final(store) == (Store { schedules: final(store).schedules, ..*old(store) }),
            final(store).schedules@ == old(store).schedules@.remove(id@),
    {
        scheduler::remove(store, id)
    }

    /// Starts a transaction.
    pub fn begin(&self, store: &Store) -> (r: Result<Transaction>)
        requires
            store.wf(),
        ensures
            r is Ok,
            r->Ok_0.started_at == store.now,
            r->Ok_0.rows@.len() == 0,
            r->Ok_0.snapshots@.len() == 0,
            !r->Ok_0.aborted,
            r->Ok_0.fits(*store),
    {
        Ok(store.begin())
    }

    /// The rows of a queue that were given up, the youngest first.
    pub fn dead_letters(&self, store: &Store, queue: &str, limit: i64) -> (r: Result<
        Vec<OutboxRow>,
    >)
        requires
            store.wf(),
        ensures
            letters_found(*store, queue@, limit, r),
    {
        admin::dead_letters(store, queue, limit)
    }

    /// Brings back a row that was given up.
    pub fn retry_dead(&self, store: &mut Store, task_id: i64) -> (r: Result<()>)
        requires
            old(store).wf(),
        ensures
            final(store).wf(),
            revived(*old(store), *final(store), r, task_id),
    {
        admin::retry_dead(store, task_id)
    }

    /// How many rows of a queue are still to be worked off.
    pub fn pending_count(&self, store: &Store, queue: &str) -> (r: Result<i64>)
        requires
            store.wf(),
        ensures
            pending_counted(*store, queue@, r),
    {
        admin::pending_count(store, queue)
    }

    /// The figures of a queue.
    pub fn queue_stats(&self, store: &Store, queue: &str) -> (r: Result<QueueStats>)
        requires
            store.wf(),
        ensures
            r is Ok,
            r->Ok_0.shows(store.outbox@, queue@),
    {
        stats::queue_stats(store, queue)
    }

    /// The figures of a subscriber, if there is one.
    pub fn subscriber_stats(&self, store: &Store, subscriber_id: &str) -> (r: Result<
        Option<SubscriberStats>,
    >)
        requires
            store.wf(),
            store.subscribers@.contains_key(subscriber_id@) ==> lag_of(*store, subscriber_id@)
                <= i64::MAX,
        ensures
            subscriber_counted(*store, r, subscriber_id@),
    {
        stats::subscriber_stats(store, subscriber_id)
    }

    /// The figures of the outbox.
    pub fn overall_stats(&self, store: &Store) -> (r: Result<OverallStats>)
        requires
            store.wf(),
        ensures
            r is Ok,
            r->Ok_0.shows(store.outbox@),
    {
        stats::overall_stats(store)
    }

    /// Whether no row has been pending for that long.
    pub fn health(&self, store: &Store, max_pending_age: Span) -> (r: Result<HealthReport>)
        requires
            store.wf(),
        ensures
            r is Ok,
            r->Ok_0.shows(*store, max_pending_age),
    {
        health::check(store, max_pending_age)
    }

    /// Moves a subscriber's cursor, so that it sees the events behind it again.
    pub fn replay_subscriber(&self, store: &mut Store, subscriber_id: &str, from_id: i64) -> (r:
        Result<()>)
        requires
            old(store).wf(),
        ensures
            final(store).wf(),
            r is Ok,
            *final(store) == (Store { subscribers: final(store).subscribers, ..*old(store) }),
            final(store).subscribers@ == with_cursor(
                old(store).subscribers@,
                subscriber_id@,
                from_id,
            ),
    {
        admin::replay_subscriber(store, subscriber_id, from_id)
    }

    /// Moves a subscriber's cursor before all events.
    pub fn reset_subscriber(&self, store: &mut Store, subscriber_id: &str) -> (r: Result<()>)
        requires
            old(store).wf(),
        ensures
            final(store).wf(),
            r is Ok,
            *final(store) == (Store { subscribers: final(store).subscribers, ..*old(store) }),
            final(store).subscribers@ == with_cursor(old(store).subscribers@, subscriber_id@, 0),
    {
        admin::reset_subscriber(store, subscriber_id)
    }

    /// Whether a consumer has processed a message.
    pub fn inbox_contains(&self, store: &Store, consumer_id: &str, message_id: i64) -> (r: Result<
        bool,
    >)
        requires
            store.wf(),
        ensures
            r == Result::<bool>::Ok(store.inbox@.contains_key((consumer_id@, message_id))),
    {
        task_queue::inbox_contains(store, consumer_id, message_id)
    }

    /// Enters that a consumer has processed a message.
    pub fn inbox_mark(&self, store: &mut Store, consumer_id: &str, message_id: i64) -> (r: Result<
        (),
    >)
        requires
            old(store).wf(),
        ensures
            final(store).wf(),
            r is Ok,
            inbox_marked(*old(store), *final(store), consumer_id@, message_id),
    {
        task_queue::inbox_mark(store, consumer_id, message_id)
    }
}

} // verus!
