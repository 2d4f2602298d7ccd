//! Workers, which claim the tasks of a queue and hand them to a handler.
use vstd::prelude::*;
use vstd::string::*;

use crate::error::Result;
use crate::relay::{completed, failed};
use crate::retry::attempts_in_range;
use crate::store::Store;
use crate::task_queue::{
    claim, claim_made, complete, fail, inbox_contains, inbox_mark, inbox_marked,
};
use crate::text::{has_prefix, starts_with};
use crate::time::Span;
use crate::types::Task;

verus! {

/// How a worker goes about the tasks of a queue.
#[derive(Debug)]
pub struct Worker {
    pub queue: String,
    /// Where notifications of new tasks come from.
    pub database_url: Option<String>,
    /// How many tasks are handled at a time.
    pub concurrency: usize,
    /// How long a claimed task stays out of sight.
    pub visibility_timeout: Span,
    /// How long an idle worker waits.
    pub poll_interval: Span,
    /// The consumer under which processed tasks are remembered.
    pub inbox_id: Option<String>,
}

/// A task that a worker has claimed.
#[derive(Debug, Clone, Copy, PartialEq, Eq, Structural)]
pub struct Held {
    pub task_id: i64,
    pub max_retries: i32,
    pub attempts: i32,
}

/// What a worker does next.
#[derive(Debug, Clone, Copy, PartialEq, Eq, Structural)]
pub enum WorkerStep {
    /// Ask whether it has been told to stop.
    Check,
    /// Claim a task.
    Claim,
    /// Ask whether the task has been processed before.
    CheckInbox(Held),
    /// Mark a task that has been processed before as done.
    Skip(Held),
    /// Tell the middleware that the task is about to be handled.
    Announce(Held),
    /// Run the handler.
    Handle(Held),
    /// Remember that the task has been processed.
    MarkInbox(Held),
    /// Tell the middleware that the handler succeeded.
    ReportSuccess(Held),
    /// Mark the task as done.
    Complete(Held),
    /// Tell the middleware that the handler failed.
    ReportFailure(Held),
    /// Enter that the task has failed.
    Fail(Held),
    /// Wait for the interval to pass or to be told to stop, or also for a notification.
    Wait { listen: bool },
    /// Wait a moment, since the notification was for another queue.
    Pause,
    /// Nothing more.
    Stop,
}

/// How a step ended.
#[derive(Debug, Clone, Copy, PartialEq, Eq, Structural)]
pub enum WorkerEvent {
    /// Whether the worker had been told to stop.
    Token { cancelled: bool },
    /// A task was claimed.
    Claimed(Held),
    /// There was none to claim.
    Idle,
    /// The claim went wrong.
    ClaimFailed,
    /// Whether the task has been processed before. If that cannot be told, it has not.
    Inbox { seen: bool },
    /// Whether the handler succeeded.
    Handled { ok: bool },
    /// A step without an outcome is over, or has gone wrong, which changes nothing.
    Done,
    /// A notification came, for the worker's queue or for another.
    Notified { ours: bool },
    /// The interval has passed, or the notifications have broken off.
    Elapsed,
    /// The worker was told to stop.
    Cancelled,
}

/// Whether a notification is for a queue.
pub open spec fn is_task_notice(payload: Seq<char>, queue: Seq<char>) -> bool {
    has_prefix(payload, "task:"@ + queue)
}

impl WorkerStep {
    /// The step after this one, for a worker with or without an inbox that does or does not listen
    /// for notifications. An event that the step does not end with changes nothing.
    pub open spec fn after(self, event: WorkerEvent, inbox: bool, listening: bool) -> WorkerStep {
        match (self, event) {
            (WorkerStep::Check, WorkerEvent::Token { cancelled }) => if cancelled {
                WorkerStep::Stop
            } else {
                WorkerStep::Claim
            },
            (WorkerStep::Claim, WorkerEvent::Claimed(held)) => if inbox {
                WorkerStep::CheckInbox(held)
            } else {
                WorkerStep::Announce(held)
            },
            (WorkerStep::Claim, WorkerEvent::Idle) => WorkerStep::Wait { listen: listening },
            (WorkerStep::Claim, WorkerEvent::ClaimFailed) => WorkerStep::Wait { listen: false },
            (WorkerStep::CheckInbox(held), WorkerEvent::Inbox { seen }) => if seen {
                WorkerStep::Skip(held)
            } else {
                WorkerStep::Announce(held)
            },
            (WorkerStep::Skip(_), WorkerEvent::Done) => WorkerStep::Check,
            (WorkerStep::Announce(held), WorkerEvent::Done) => WorkerStep::Handle(held),
            (WorkerStep::Handle(held), WorkerEvent::Handled { ok }) => if !ok {
                WorkerStep::ReportFailure(held)
            } else if inbox {
                WorkerStep::MarkInbox(held)
            } else {
                WorkerStep::ReportSuccess(held)
            },
            (WorkerStep::MarkInbox(held), WorkerEvent::Done) => WorkerStep::ReportSuccess(held),
            (WorkerStep::ReportSuccess(held), WorkerEvent::Done) => WorkerStep::Complete(held),
            (WorkerStep::Complete(_), WorkerEvent::Done) => WorkerStep::Check,
            (WorkerStep::ReportFailure(held), WorkerEvent::Done) => WorkerStep::Fail(held),
            (WorkerStep::Fail(_), WorkerEvent::Done) => WorkerStep::Check,
            (WorkerStep::Wait { listen }, WorkerEvent::Notified { ours }) => if !listen {
                self
            } else if ours {
                WorkerStep::Check
            } else {
                WorkerStep::Pause
            },
            (WorkerStep::Wait { .. }, WorkerEvent::Elapsed) => WorkerStep::Check,
            (WorkerStep::Wait { .. }, WorkerEvent::Cancelled) => WorkerStep::Stop,
            (WorkerStep::Pause, WorkerEvent::Done) => WorkerStep::Check,
            _ => self,
        }
    }

    /// The task that the worker holds at this step.
    pub open spec fn held(self) -> Option<Held> {
        match self {
            WorkerStep::CheckInbox(held) => Some(held),
            WorkerStep::Skip(held) => Some(held),
            WorkerStep::Announce(held) => Some(held),
            WorkerStep::Handle(held) => Some(held),
            WorkerStep::MarkInbox(held) => Some(held),
            WorkerStep::ReportSuccess(held) => Some(held),
            WorkerStep::Complete(held) => Some(held),
            WorkerStep::ReportFailure(held) => Some(held),
            WorkerStep::Fail(held) => Some(held),
            _ => None,
        }
    }

    /// Whether the step is the last that the worker does with a task.
    pub open spec fn settles(self) -> bool {
        self is Skip || self is Complete || self is Fail
    }
}

impl Worker {
    pub fn new(queue: &str) -> (r: Worker)
        ensures
            r.queue@ == queue@,
            r.database_url is None,
            r.concurrency == 1,
            r.visibility_timeout.micros == 30_000_000,
            r.poll_interval.micros == 100_000,
            r.inbox_id is None,
    {
        Worker {
            queue: queue.to_owned(),
            database_url: None,
            concurrency: 1,
            visibility_timeout: Span::from_secs(30),
            poll_interval: Span::from_millis(100),
            inbox_id: None,
        }
    }

    pub fn concurrency(self, concurrency: usize) -> (r: Worker)
        ensures
            r == (Worker { concurrency, ..self }),
    {
        Worker { concurrency, ..self }
    }

    pub fn visibility_timeout(self, timeout: Span) -> (r: Worker)
        ensures
            r == (Worker { visibility_timeout: timeout, ..self }),
    {
        Worker { visibility_timeout: timeout, ..self }
    }

    pub fn poll_interval(self, interval: Span) -> (r: Worker)
        ensures
            r == (Worker { poll_interval: interval, ..self }),
    {
        Worker { poll_interval: interval, ..self }
    }

    pub fn database_url(self, url: &str) -> (r: Worker)
        ensures
            r.database_url is Some,
            r.database_url->0@ == url@,
            r == (Worker { database_url: r.database_url, ..self }),
    {
        Worker { database_url: Some(url.to_owned()), ..self }
    }

    pub fn inbox(self, consumer_id: &str) -> (r: Worker)
        ensures
            r.inbox_id is Some,
            r.inbox_id->0@ == consumer_id@,
            r == (Worker { inbox_id: r.inbox_id, ..self }),
    {
        Worker { inbox_id: Some(consumer_id.to_owned()), ..self }
    }

    /// Whether a notification is for the worker's queue.
    pub fn concerns(&self, payload: &str) -> (r: bool)
        ensures
            r == is_task_notice(payload@, self.queue@),
    {
        let prefix: String = "task:".to_owned().concat(self.queue.as_str());
        starts_with(payload, prefix.as_str())
    }

    /// The step after a step.
    pub fn next(&self, step: WorkerStep, event: WorkerEvent, listening: bool) -> (r: WorkerStep)
        ensures
            r == step.after(event, self.inbox_id is Some, listening),
    {
        let inbox: bool = self.inbox_id.is_some();
        match (step, event) {
            (WorkerStep::Check, WorkerEvent::Token { cancelled }) => if cancelled {
                WorkerStep::Stop
            } else {
                WorkerStep::Claim
            },
            (WorkerStep::Claim, WorkerEvent::Claimed(held)) => if inbox {
                WorkerStep::CheckInbox(held)
            } else {
                WorkerStep::Announce(held)
            },
            (WorkerStep::Claim, WorkerEvent::Idle) => WorkerStep::Wait { listen: listening },
            (WorkerStep::Claim, WorkerEvent::ClaimFailed) => WorkerStep::Wait { listen: false },
            (WorkerStep::CheckInbox(held), WorkerEvent::Inbox { seen }) => if seen {
                WorkerStep::Skip(held)
            } else {
                WorkerStep::Announce(held)
            },
            (WorkerStep::Skip(_), WorkerEvent::Done) => WorkerStep::Check,
            (WorkerStep::Announce(held), WorkerEvent::Done) => WorkerStep::Handle(held),
            (WorkerStep::Handle(held), WorkerEvent::Handled { ok }) => if !ok {
                WorkerStep::ReportFailure(held)
            } else if inbox {
                WorkerStep::MarkInbox(held)
            } else {
                WorkerStep::ReportSuccess(held)
            },
            (WorkerStep::MarkInbox(held), WorkerEvent::Done) => WorkerStep::ReportSuccess(held),
            (WorkerStep::ReportSuccess(held), WorkerEvent::Done) => WorkerStep::Complete(held),
            (WorkerStep::Complete(_), WorkerEvent::Done) => WorkerStep::Check,
            (WorkerStep::ReportFailure(held), WorkerEvent::Done) => WorkerStep::Fail(held),
            (WorkerStep::Fail(_), WorkerEvent::Done) => WorkerStep::Check,
            (WorkerStep::Wait { listen }, WorkerEvent::Notified { ours }) => if !listen {
                step
            } else if ours {
                WorkerStep::Check
            } else {
                WorkerStep::Pause
            },
            (WorkerStep::Wait { .. }, WorkerEvent::Elapsed) => WorkerStep::Check,
            (WorkerStep::Wait { .. }, WorkerEvent::Cancelled) => WorkerStep::Stop,
            (WorkerStep::Pause, WorkerEvent::Done) => WorkerStep::Check,
            _ => step,
        }
    }

    /// What a claim means to the worker.
    pub fn claim_event(claimed: &Result<Option<Task>>) -> (r: WorkerEvent)
        ensures
            r == claim_event_of(*claimed),
    {
        match claimed {
            Ok(Some(task)) => WorkerEvent::Claimed(
                Held {
                    task_id: task.id,
                    max_retries: task.max_retries,
                    attempts: task.attempts,
                },
            ),
            Ok(None) => WorkerEvent::Idle,
            Err(_) => WorkerEvent::ClaimFailed,
        }
    }
}

/// What a claim means to the worker.
pub open spec fn claim_event_of(claimed: Result<Option<Task>>) -> WorkerEvent {
    match claimed {
        Ok(Some(task)) => WorkerEvent::Claimed(
            Held { task_id: task.id, max_retries: task.max_retries, attempts: task.attempts },
        ),
        Ok(None) => WorkerEvent::Idle,
        Err(_) => WorkerEvent::ClaimFailed,
    }
}

/// Whether a worker has done what a step asks of the store. The other steps leave it alone.
pub open spec fn performed(
    worker: Worker,
    before: Store,
    after: Store,
    step: WorkerStep,
    event: WorkerEvent,
    task: Option<Task>,
) -> bool {
    match step {
        WorkerStep::Claim => exists|claimed: Result<Option<Task>>|
            {
                &&& #[trigger] claim_made(
                    before,
                    after,
                    claimed,
                    worker.queue@,
                    worker.visibility_timeout,
                )
                &&& event == claim_event_of(claimed)
                &&& task == (match claimed {
                    Ok(task) => task,
                    Err(_) => None,
                })
            },
        WorkerStep::CheckInbox(held) => {
            &&& event == WorkerEvent::Inbox {
                seen: worker.inbox_id is Some && before.inbox@.contains_key(
                    (worker.inbox_id->0@, held.task_id),
                ),
            }
            &&& task is None
            &&& after == before
        },
        WorkerStep::MarkInbox(held) => {
            &&& event is Done
            &&& task is None
            &&& match worker.inbox_id {
                Some(id) => inbox_marked(before, after, id@, held.task_id),
                None => after == before,
            }
        },
        WorkerStep::Skip(held) | WorkerStep::Complete(held) => {
            &&& event is Done
            &&& task is None
            &&& completed(before, after, held.task_id)
        },
        WorkerStep::Fail(held) => {
            &&& event is Done
            &&& task is None
            &&& exists|r: Result<()>| #[trigger]
                failed(before, after, r, held.task_id, held.max_retries, held.attempts)
        },
        _ => event is Done && task is None && after == before,
    }
}

impl Worker {
    /// Does what a step asks of the store.
    pub fn perform(&self, store: &mut Store, step: WorkerStep) -> (r: (WorkerEvent, Option<Task>))
        requires
            old(store).wf(),
            step matches WorkerStep::Fail(held) ==> attempts_in_range(
                held.max_retries,
                held.attempts,
            ),
        ensures
            final(store).wf(),
            performed(*self, *old(store), *final(store), step, r.0, r.1),
    {
        match step {
            WorkerStep::Claim => {
                let claimed: Result<Option<Task>> = claim(
                    store,
                    self.queue.as_str(),
                    self.visibility_timeout,
                );
                let event: WorkerEvent = Worker::claim_event(&claimed);
                let ghost made = claimed;
                assert(claim_made(
                    *old(store),
                    *store,
                    made,
                    self.queue@,
                    self.visibility_timeout,
                ));
                let task: Option<Task> = match claimed {
                    Ok(task) => task,
                    Err(_) => None,
                };
                (event, task)
            },
            WorkerStep::CheckInbox(held) => {
                let seen: bool = match &self.inbox_id {
                    Some(id) => match inbox_contains(store, id.as_str(), held.task_id) {
                        Ok(seen) => seen,
                        Err(_) => false,
                    },
                    None => false,
                };
                (WorkerEvent::Inbox { seen }, None)
            },
            WorkerStep::MarkInbox(held) => {
                if let Some(id) = &self.inbox_id {
                    let _: Result<()> = inbox_mark(store, id.as_str(), held.task_id);
                }
                (WorkerEvent::Done, None)
            },
            WorkerStep::Skip(held) => {
                let _: Result<()> = complete(store, held.task_id);
                (WorkerEvent::Done, None)
            },
            WorkerStep::Complete(held) => {
                let _: Result<()> = complete(store, held.task_id);
                (WorkerEvent::Done, None)
            },
            WorkerStep::Fail(held) => {
                let _: Result<()> = fail(store, held.task_id, held.max_retries, held.attempts);
                (WorkerEvent::Done, None)
            },
            _ => (WorkerEvent::Done, None),
        }
    }
}

/// A worker keeps a task that it has claimed until it has marked it as done or as failed.
pub proof fn claimed_task_is_settled(
    step: WorkerStep,
    event: WorkerEvent,
    inbox: bool,
    listening: bool,
)
    requires
        step.held() is Some,
    ensures
        step.after(event, inbox, listening).held() == step.held() || (step.settles() && step.after(
            event,
            inbox,
            listening,
        ) is Check),
{
}

/// The handler decides: after a success the task is marked as done, after a failure as failed. With
/// an inbox, a success is remembered before.
pub proof fn handler_decides(held: Held, ok: bool, inbox: bool, listening: bool)
    ensures
        ({
            let done = WorkerEvent::Done;
            let step = WorkerStep::Handle(held).after(
                WorkerEvent::Handled { ok },
                inbox,
                listening,
            );
            if !ok {
                step.after(done, inbox, listening) == WorkerStep::Fail(held)
            } else if !inbox {
                step.after(done, inbox, listening) == WorkerStep::Complete(held)
            } else {
                &&& step == WorkerStep::MarkInbox(held)
                &&& step.after(done, inbox, listening).after(done, inbox, listening)
                    == WorkerStep::Complete(held)
            }
        }),
{
}

/// A worker with an inbox does not handle a task that it has processed before.
pub proof fn processed_task_is_skipped(
    worker: Worker,
    before: Store,
    after: Store,
    held: Held,
    event: WorkerEvent,
    task: Option<Task>,
    listening: bool,
)
    requires
        worker.inbox_id is Some,
        before.inbox@.contains_key((worker.inbox_id->0@, held.task_id)),
        performed(worker, before, after, WorkerStep::CheckInbox(held), event, task),
    ensures
        WorkerStep::CheckInbox(held).after(event, true, listening) == WorkerStep::Skip(held),
{
}

/// A task that a worker with an inbox has handled with success is remembered as processed.
pub proof fn handled_task_is_remembered(
    worker: Worker,
    before: Store,
    after: Store,
    held: Held,
    event: WorkerEvent,
    task: Option<Task>,
)
    requires
        worker.inbox_id is Some,
        performed(worker, before, after, WorkerStep::MarkInbox(held), event, task),
    ensures
        after.inbox@.contains_key((worker.inbox_id->0@, held.task_id)),
{
}

/// The step that a series of events leads to.
pub open spec fn worker_after(
    step: WorkerStep,
    events: Seq<WorkerEvent>,
    inbox: bool,
    listening: bool,
) -> WorkerStep
    decreases events.len(),
{
    if events.len() == 0 {
        step
    } else {
        worker_after(step, events.drop_last(), inbox, listening).after(
            events.last(),
            inbox,
            listening,
        )
    }
}

/// A worker that has stopped stays so.
pub proof fn stopped_worker_stays_stopped(events: Seq<WorkerEvent>, inbox: bool, listening: bool)
    ensures
        worker_after(WorkerStep::Stop, events, inbox, listening) is Stop,
    decreases events.len(),
{
    if events.len() > 0 {
        stopped_worker_stays_stopped(events.drop_last(), inbox, listening);
    }
}

/// A worker that has been told to stop claims no further task: it settles the one that it holds.
pub proof fn no_claim_after_shutdown(
    step: WorkerStep,
    events: Seq<WorkerEvent>,
    inbox: bool,
    listening: bool,
)
    requires
        !(step is Claim),
        forall|i: int|
            0 <= i < events.len() ==> ((
            #[trigger] events[i]) matches WorkerEvent::Token { cancelled } ==> cancelled),
    ensures
        !(worker_after(step, events, inbox, listening) is Claim),
    decreases events.len(),
{
    if events.len() > 0 {
        let before = events.drop_last();
        assert forall|i: int| 0 <= i < before.len() implies ((
        #[trigger] before[i]) matches WorkerEvent::Token { cancelled } ==> cancelled) by {
            assert(before[i] == events[i]);
        }
        no_claim_after_shutdown(step, before, inbox, listening);
        assert(events.last() == events[events.len() - 1]);
    }
}

} // verus!
