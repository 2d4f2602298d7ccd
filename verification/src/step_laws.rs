//! How the loops of workers, subscribers, the relay and the other background jobs go on, whatever
//! happens to them.
use vstd::prelude::*;

use crate::cycle::{CycleEvent, CycleStep};
use crate::error::Result;
use crate::event_laws::feed_leaves_no_event_out;
use crate::like::like;
use crate::queue_laws::{
    active_task_can_fail, claim_takes_the_most_urgent_task, failure_decides_by_attempts,
    visible_task_can_be_claimed,
};
use crate::relay_loop::{RelayEvent, RelayStep};
use crate::retry::attempts_in_range;
use crate::store::Store;
use crate::subscriber::{
    is_event_notice, subscriber_performed, Subscriber, SubscriberEvent, SubscriberStep,
};
use crate::task_queue::claim_made;
use crate::types::{OutboxRow, Task};
use crate::worker::{
    claim_event_of, is_task_notice, performed, Held, Worker, WorkerEvent, WorkerStep,
};

verus! {

/// A worker stops when it is told to and only then: when it asks, or while it waits.
pub proof fn worker_stops_only_when_told(
    step: WorkerStep,
    event: WorkerEvent,
    inbox: bool,
    listening: bool,
)
    ensures
        !(step is Stop) && step.after(event, inbox, listening) is Stop <==> {
            ||| step is Check && event == (WorkerEvent::Token { cancelled: true })
            ||| step is Wait && event is Cancelled
        },
{
}

/// A worker that has not been told to stop claims whenever it asks.
pub proof fn worker_claims_whenever_it_asks(
    step: WorkerStep,
    event: WorkerEvent,
    inbox: bool,
    listening: bool,
)
    ensures
        !(step is Claim) && step.after(event, inbox, listening) is Claim <==> step is Check && event
            == (WorkerEvent::Token { cancelled: false }),
{
}

/// A worker is idle when it has found nothing or could not claim. Where it has found nothing it
/// listens, if it can. It asks again when its interval is over, when a notification for its queue
/// comes while it listens, and when the pause after one for another queue is over.
pub proof fn idle_worker_comes_back(
    step: WorkerStep,
    event: WorkerEvent,
    inbox: bool,
    listening: bool,
    listen: bool,
)
    ensures
        ({
            let next = step.after(event, inbox, listening);
            let waits = WorkerStep::Wait { listen };
            &&& !(step is Wait) && next == waits <==> step is Claim && ((event is Idle && listen
                == listening) || (event is ClaimFailed && !listen))
            &&& !(step is Pause) && next is Pause <==> step == (WorkerStep::Wait { listen: true })
                && event == (WorkerEvent::Notified { ours: false })
            &&& waits.after(WorkerEvent::Elapsed, inbox, listening) is Check
            &&& waits.after(WorkerEvent::Notified { ours: true }, inbox, listening) == (if listen {
                WorkerStep::Check
            } else {
                waits
            })
            &&& WorkerStep::Pause.after(WorkerEvent::Done, inbox, listening) is Check
        }),
{
}

/// The way of a task through a worker: claimed, looked up in the inbox if there is one, announced and
/// handled unless it has been processed before, remembered if there is an inbox and the handler
/// succeeded, reported, and settled; then the worker asks again. The task stays the same all the
/// way.
pub proof fn task_goes_its_way(held: Held, inbox: bool, listening: bool)
    ensures
        ({
            let done = WorkerEvent::Done;
            let taken = WorkerStep::Claim.after(WorkerEvent::Claimed(held), inbox, listening);
            let handled = WorkerStep::Announce(held).after(done, inbox, listening);
            let succeeded = handled.after(WorkerEvent::Handled { ok: true }, inbox, listening);
            let failed = handled.after(WorkerEvent::Handled { ok: false }, inbox, listening);
            &&& !inbox ==> taken == WorkerStep::Announce(held)
            &&& inbox ==> taken == WorkerStep::CheckInbox(held)
            &&& WorkerStep::CheckInbox(held).after(
                WorkerEvent::Inbox { seen: true },
                inbox,
                listening,
            ) == WorkerStep::Skip(held)
            &&& WorkerStep::CheckInbox(held).after(
                WorkerEvent::Inbox { seen: false },
                inbox,
                listening,
            ) == WorkerStep::Announce(held)
            &&& handled == WorkerStep::Handle(held)
            &&& inbox ==> succeeded == WorkerStep::MarkInbox(held) && succeeded.after(
                done,
                inbox,
                listening,
            ) == WorkerStep::ReportSuccess(held)
            &&& !inbox ==> succeeded == WorkerStep::ReportSuccess(held)
            &&& WorkerStep::ReportSuccess(held).after(done, inbox, listening)
                == WorkerStep::Complete(held)
            &&& failed == WorkerStep::ReportFailure(held)
            &&& failed.after(done, inbox, listening) == WorkerStep::Fail(held)
            &&& WorkerStep::Skip(held).after(done, inbox, listening) is Check
            &&& WorkerStep::Complete(held).after(done, inbox, listening) is Check
            &&& WorkerStep::Fail(held).after(done, inbox, listening) is Check
        }),
{
}

/// A task is handled only after it was claimed, marked as done only after its handler succeeded or it
/// had been processed before, and entered as failed only after its handler failed.
pub proof fn outcome_has_a_cause(
    step: WorkerStep,
    event: WorkerEvent,
    inbox: bool,
    listening: bool,
    held: Held,
)
    ensures
        ({
            let next = step.after(event, inbox, listening);
            &&& step != next && next == WorkerStep::Handle(held) ==> step == WorkerStep::Announce(
                held,
            )
            &&& step != next && next == WorkerStep::Announce(held) ==> (step is Claim && event
                == WorkerEvent::Claimed(held)) || (step == WorkerStep::CheckInbox(held) && event
                == (WorkerEvent::Inbox { seen: false }))
            &&& step != next && next == WorkerStep::Skip(held) ==> step == WorkerStep::CheckInbox(
                held,
            ) && event == (WorkerEvent::Inbox { seen: true })
            &&& step != next && next == WorkerStep::Complete(held) ==> step
                == WorkerStep::ReportSuccess(held)
            &&& step != next && next == WorkerStep::ReportSuccess(held) ==> step
                == WorkerStep::MarkInbox(held) || (step == WorkerStep::Handle(held) && event == (
            WorkerEvent::Handled { ok: true }))
            &&& step != next && next == WorkerStep::MarkInbox(held) ==> step
                == WorkerStep::Handle(held) && event == (WorkerEvent::Handled { ok: true })
            &&& step != next && next == WorkerStep::Fail(held) ==> step
                == WorkerStep::ReportFailure(held)
            &&& step != next && next == WorkerStep::ReportFailure(held) ==> step
                == WorkerStep::Handle(held) && event == (WorkerEvent::Handled { ok: false })
        }),
{
}

/// A step of a worker ends with an event of its own and no other.
pub proof fn worker_step_ends_with_its_own_event(
    step: WorkerStep,
    event: WorkerEvent,
    inbox: bool,
    listening: bool,
)
    requires
        step.after(event, inbox, listening) != step,
    ensures
        !(step is Stop),
        step is Check ==> event is Token,
        step is Claim ==> event is Claimed || event is Idle || event is ClaimFailed,
        step is CheckInbox ==> event is Inbox,
        step is Handle ==> event is Handled,
        step is Wait ==> event is Notified || event is Elapsed || event is Cancelled,
        step is Skip || step is Announce || step is MarkInbox || step is ReportSuccess
            || step is Complete || step is ReportFailure || step is Fail || step is Pause
            ==> event is Done,
{
}

/// A worker wakes on every notification of a task for its queue, and on no notification that does
/// not start with the name of its queue.
pub proof fn worker_hears_its_queue(queue: Seq<char>, rest: Seq<char>, payload: Seq<char>)
    ensures
        is_task_notice("task:"@ + queue + rest, queue),
        is_task_notice(payload, queue) ==> exists|tail: Seq<char>|
            payload == #[trigger] ("task:"@ + queue + tail),
{
    let head = "task:"@ + queue;
    assert((head + rest).take(head.len() as int) =~= head);
    if is_task_notice(payload, queue) {
        let tail = payload.skip(head.len() as int);
        assert(payload =~= payload.take(head.len() as int) + tail);
        assert(payload == "task:"@ + queue + tail);
    }
}

/// A subscriber wakes on every notification of an event of its entity type, and on no other.
pub proof fn subscriber_hears_its_type(
    entity_type: Seq<char>,
    entity_id: Seq<char>,
    payload: Seq<char>,
)
    ensures
        is_event_notice("event:"@ + entity_type + ":"@ + entity_id, entity_type),
        is_event_notice(payload, entity_type) ==> exists|id: Seq<char>|
            payload == #[trigger] ("event:"@ + entity_type + ":"@ + id),
{
    let head = "event:"@ + entity_type + ":"@;
    assert((head + entity_id).take(head.len() as int) =~= head);
    if is_event_notice(payload, entity_type) {
        let id = payload.skip(head.len() as int);
        assert(payload =~= payload.take(head.len() as int) + id);
        assert(payload == "event:"@ + entity_type + ":"@ + id);
    }
}

/// What a worker makes of a claim: it holds the task that it got with the task's own count of
/// attempts and its own limit, is idle if there was none, and notes that the claim failed.
pub proof fn claim_is_taken_for_what_it_is(claimed: Result<Option<Task>>)
    ensures
        claimed matches Ok(Some(task)) ==> (claim_event_of(claimed) matches WorkerEvent::Claimed(
            held,
        ) && held.task_id == task.id && held.max_retries == task.max_retries && held.attempts
            == task.attempts),
        claimed matches Ok(None) ==> claim_event_of(claimed) is Idle,
        claimed is Err ==> claim_event_of(claimed) is ClaimFailed,
{
}

/// What a worker's steps do to the store: skipping and completing mark the row of the task as
/// delivered, remembering puts the task into the worker's inbox, and looking it up changes nothing
/// and tells whether it is there. Announcing, handling, reporting, waiting and asking leave the
/// store alone.
pub proof fn worker_does_what_the_step_says(
    worker: Worker,
    before: Store,
    after: Store,
    step: WorkerStep,
    event: WorkerEvent,
    task: Option<Task>,
    held: Held,
    i: int,
)
    requires
        performed(worker, before, after, step, event, task),
        0 <= i < before.outbox@.len(),
    ensures
        step == WorkerStep::Skip(held) || step == WorkerStep::Complete(held) ==> {
            &&& after.outbox@.len() == before.outbox@.len()
            &&& before.outbox@[i].id == held.task_id ==> after.outbox@[i].status is Delivered
                && after.outbox@[i].delivered_at == Some(before.now)
            &&& before.outbox@[i].id != held.task_id ==> after.outbox@[i] == before.outbox@[i]
        },
        step == WorkerStep::MarkInbox(held) && worker.inbox_id is Some ==> after.inbox@.contains_key(
            (worker.inbox_id->0@, held.task_id),
        ) && after.outbox == before.outbox,
        step == WorkerStep::CheckInbox(held) && worker.inbox_id is Some ==> event == (
        WorkerEvent::Inbox {
            seen: before.inbox@.contains_key((worker.inbox_id->0@, held.task_id)),
        }) && after == before,
        step == WorkerStep::Fail(held) && before.outbox@[i].id != held.task_id ==> after.outbox@[i]
            == before.outbox@[i],
        step is Announce || step is Handle || step is ReportSuccess || step is ReportFailure
            || step is Wait || step is Pause || step is Check || step is Stop ==> after == before,
{
    if step == WorkerStep::Fail(held) {
        let r = choose|r: Result<()>| #[trigger]
            crate::relay::failed(
                before,
                after,
                r,
                held.task_id,
                held.max_retries,
                held.attempts,
            );
        let draw = choose|draw: u64| #[trigger]
            crate::relay::failure_entered(
                before,
                after,
                r,
                held.task_id,
                crate::retry::failure_of(held.max_retries, held.attempts, draw),
            );
    }
}

/// A subscriber stops when it cannot be entered or is told to, and only then.
pub proof fn subscriber_stops_only_when_told(
    step: SubscriberStep,
    event: SubscriberEvent,
    listening: bool,
)
    ensures
        !(step is Stop) && step.after(event, listening) is Stop <==> {
            ||| step is Register && event == (SubscriberEvent::Registered { ok: false })
            ||| step is Check && event == (SubscriberEvent::Token { cancelled: true })
            ||| step is Wait && event is Cancelled
        },
{
}

/// A subscriber that has not been told to stop reads its cursor whenever it asks, and then the events
/// behind that cursor. It asks once it is entered, when its interval is over, when a notification for
/// its entity type comes while it listens, and when the pause after one for another type is over.
pub proof fn subscriber_comes_back(cursor: i64, listening: bool)
    ensures
        ({
            let poll = SubscriberStep::Poll { after: cursor };
            let deaf = SubscriberStep::Wait { listen: false };
            let listens = SubscriberStep::Wait { listen: true };
            let ours = SubscriberEvent::Notified { ours: true };
            let theirs = SubscriberEvent::Notified { ours: false };
            let entered = SubscriberEvent::Registered { ok: true };
            let go_on = SubscriberEvent::Token { cancelled: false };
            &&& SubscriberStep::Register.after(entered, listening) is Check
            &&& SubscriberStep::Check.after(go_on, listening) is ReadCursor
            &&& SubscriberStep::ReadCursor.after(SubscriberEvent::Cursor(cursor), listening) == poll
            &&& SubscriberStep::ReadCursor.after(SubscriberEvent::Failed, listening) == deaf
            &&& poll.after(SubscriberEvent::Failed, listening) == deaf
            &&& listens.after(SubscriberEvent::Elapsed, listening) is Check
            &&& deaf.after(SubscriberEvent::Elapsed, listening) is Check
            &&& listens.after(ours, listening) is Check
            &&& listens.after(theirs, listening) is Pause
            &&& SubscriberStep::Pause.after(SubscriberEvent::Elapsed, listening) is Check
        }),
{
}

/// The way of a batch of events through a subscriber: from the first to the last, each is handled,
/// and then the cursor moves to it; after that comes the next one. A failure ends the batch.
pub proof fn batch_goes_its_way(cursor: i64, index: usize, count: usize, listening: bool)
    requires
        index < count,
    ensures
        ({
            let poll = SubscriberStep::Poll { after: cursor };
            let first = SubscriberStep::Handle { index: 0, count };
            let handle = SubscriberStep::Handle { index, count };
            let advance = SubscriberStep::Advance { index, count };
            let deaf = SubscriberStep::Wait { listen: false };
            let idle = SubscriberStep::Wait { listen: listening };
            let moved = advance.after(SubscriberEvent::Advanced { ok: true }, listening);
            &&& poll.after(SubscriberEvent::Polled { count }, listening) == first
            &&& poll.after(SubscriberEvent::Polled { count: 0 }, listening) == idle
            &&& handle.after(SubscriberEvent::Handled { ok: true }, listening) == advance
            &&& handle.after(SubscriberEvent::Handled { ok: false }, listening) == deaf
            &&& advance.after(SubscriberEvent::Advanced { ok: false }, listening) == deaf
            &&& index + 1 < count ==> moved == (SubscriberStep::Handle {
                index: (index + 1) as usize,
                count,
            })
            &&& index + 1 == count ==> moved == idle
        }),
{
}

/// Every step of a subscriber has a cause: an event is handled only after it was read or the one
/// before it was put behind, the cursor moves only to an event that was handled, and events are read
/// only behind the cursor that was read.
pub proof fn subscriber_steps_have_a_cause(
    step: SubscriberStep,
    event: SubscriberEvent,
    listening: bool,
    index: usize,
    count: usize,
    cursor: i64,
)
    ensures
        ({
            let next = step.after(event, listening);
            &&& step != next && next == (SubscriberStep::Handle { index, count }) ==> {
                ||| step is Poll && event == (SubscriberEvent::Polled { count }) && index == 0
                ||| index > 0 && step == (SubscriberStep::Advance {
                    index: (index - 1) as usize,
                    count,
                }) && event == (SubscriberEvent::Advanced { ok: true })
            }
            &&& step != next && next == (SubscriberStep::Advance { index, count }) ==> step == (
            SubscriberStep::Handle { index, count }) && event == (SubscriberEvent::Handled {
                ok: true,
            })
            &&& step != next && next == (SubscriberStep::Poll { after: cursor }) ==> step
                is ReadCursor && event == SubscriberEvent::Cursor(cursor)
            &&& step != next && next is ReadCursor ==> step is Check && event == (
            SubscriberEvent::Token { cancelled: false })
            &&& !(next is Register) || step is Register
        }),
{
}

/// A step of a subscriber ends with an event of its own and no other.
pub proof fn subscriber_step_ends_with_its_own_event(
    step: SubscriberStep,
    event: SubscriberEvent,
    listening: bool,
)
    requires
        step.after(event, listening) != step,
    ensures
        !(step is Stop),
        step is Register ==> event is Registered,
        step is Check ==> event is Token,
        step is ReadCursor ==> event is Cursor || event is Failed,
        step is Poll ==> event is Polled || event is Failed,
        step is Handle ==> event is Handled,
        step is Advance ==> event is Advanced,
        step is Wait ==> event is Notified || event is Elapsed || event is Cancelled,
        step is Pause ==> event is Elapsed,
        step == (SubscriberStep::Wait { listen: false }) ==> !(event is Notified),
{
}

/// What a subscriber's steps do to the store: reading the cursor gives the stored one, moving it
/// stores the identifier of the event in hand and leaves the other subscribers alone, and reading
/// events changes nothing.
pub proof fn subscriber_does_what_the_step_says(
    subscriber: Subscriber,
    before: Store,
    after: Store,
    step: SubscriberStep,
    batch: Seq<OutboxRow>,
    event: Option<SubscriberEvent>,
    read: Option<Seq<OutboxRow>>,
    other: Seq<char>,
)
    requires
        subscriber_performed(subscriber, before, after, step, batch, event, read),
    ensures
        after.outbox == before.outbox,
        step is ReadCursor && before.subscribers@.contains_key(subscriber.id@) ==> event == Some(
            SubscriberEvent::Cursor(before.subscribers@[subscriber.id@].last_seen_id),
        ),
        step matches SubscriberStep::Advance { index, .. } ==> (before.subscribers@.contains_key(
            subscriber.id@,
        ) ==> after.subscribers@.contains_key(subscriber.id@)
            && after.subscribers@[subscriber.id@].last_seen_id == batch[index as int].id),
        other != subscriber.id@ ==> after.subscribers@.contains_key(other)
            == before.subscribers@.contains_key(other) && (before.subscribers@.contains_key(other)
            ==> after.subscribers@[other] == before.subscribers@[other]),
        step is Register ==> after.subscribers@.contains_key(subscriber.id@) && (
        !before.subscribers@.contains_key(subscriber.id@)
            ==> after.subscribers@[subscriber.id@].last_seen_id == 0) && (
        before.subscribers@.contains_key(subscriber.id@)
            ==> after.subscribers@[subscriber.id@].last_seen_id
            == before.subscribers@[subscriber.id@].last_seen_id),
        !(step is Register) && !(step is Advance) ==> after == before,
{
}

/// The relay stops when it is told to and only then, and takes events whenever it asks and has not
/// been told to. After a wait it asks again.
pub proof fn relay_stops_only_when_told(step: RelayStep, event: RelayEvent)
    ensures
        !(step is Stop) && step.after(event) is Stop <==> {
            ||| step is Check && event == (RelayEvent::Token { cancelled: true })
            ||| step is Wait && event is Cancelled
        },
        !(step is Poll) && step.after(event) is Poll <==> step is Check && event == (
        RelayEvent::Token { cancelled: false }),
        RelayStep::Wait.after(RelayEvent::Elapsed) is Check,
        !(step is Check) && step.after(event) is Check ==> step is Wait && event is Elapsed,
        step is Hand && step.after(event) != step ==> event is Handed,
        step is Poll && step.after(event) != step ==> event is Polled || event is Failed,
        RelayStep::Poll.after(RelayEvent::Failed) is Wait,
        event matches RelayEvent::Polled { count } ==> RelayStep::Poll.after(event) == if count
            > 0 {
            RelayStep::Hand { index: 0, count }
        } else {
            RelayStep::Wait
        },
        step matches RelayStep::Hand { index, count } ==> (event is Handed ==> step.after(event)
            == if index + 1 < count {
            RelayStep::Hand { index: (index + 1) as usize, count }
        } else {
            RelayStep::Wait
        }),
        step is Wait && step.after(event) != step ==> event is Elapsed || event is Cancelled,
{
}

/// A background job stops when it is told to and only then, works whenever it asks and has not been
/// told to, waits after every round, and asks again after every wait.
pub proof fn job_stops_only_when_told(step: CycleStep, event: CycleEvent)
    ensures
        !(step is Stop) && step.after(event) is Stop <==> {
            ||| step is Check && event == (CycleEvent::Token { cancelled: true })
            ||| step is Wait && event is Cancelled
        },
        !(step is Work) && step.after(event) is Work <==> step is Check && event == (
        CycleEvent::Token { cancelled: false }),
        !(step is Wait) && step.after(event) is Wait <==> step is Work && event is Worked,
        !(step is Check) && step.after(event) is Check <==> step is Wait && event is Elapsed,
{
}

/// A worker that claims takes a task of its own queue, and holds what the row says of it. As long as
/// there is a task of its queue that is pending or claimed and whose time has come, it does not find
/// the queue empty.
pub proof fn worker_claims_from_its_queue(
    worker: Worker,
    before: Store,
    after: Store,
    event: WorkerEvent,
    task: Option<Task>,
    i: int,
)
    requires
        performed(worker, before, after, WorkerStep::Claim, event, task),
    ensures
        event is Claimed || event is Idle || event is ClaimFailed,
        event is Claimed <==> task is Some,
        0 <= i < before.outbox@.len() && before.outbox@[i].kind is Task && before.outbox@[i].key@
            == worker.queue@ && (before.outbox@[i].status is Pending
            || before.outbox@[i].status is Claimed) && before.outbox@[i].visible_at <= before.now
            ==> !(event is Idle),
        event matches WorkerEvent::Claimed(held) ==> exists|j: int|
            {
                let row = #[trigger] before.outbox@[j];
                &&& 0 <= j < before.outbox@.len()
                &&& row.kind is Task
                &&& row.key@ == worker.queue@
                &&& row.status is Pending || row.status is Claimed
                &&& row.visible_at <= before.now
                &&& held.task_id == row.id
                &&& held.max_retries == row.max_retries
                &&& held.attempts == row.attempts + 1
                &&& task->0.id == row.id
                &&& task->0.queue@ == row.key@
                &&& task->0.payload@ == row.payload@
                &&& after.outbox@[j].status is Claimed
                &&& after.outbox@[j].attempts == row.attempts + 1
                &&& after.outbox@[j].visible_at == before.now + worker.visibility_timeout.micros
            },
        !(event is Claimed) ==> after.outbox@ == before.outbox@,
{
    let claimed = choose|claimed: Result<Option<Task>>|
        {
            &&& #[trigger] claim_made(
                before,
                after,
                claimed,
                worker.queue@,
                worker.visibility_timeout,
            )
            &&& event == claim_event_of(claimed)
            &&& task == (match claimed {
                Ok(task) => task,
                Err(_) => None,
            })
        };
    claim_is_taken_for_what_it_is(claimed);
    if 0 <= i < before.outbox@.len() && before.outbox@[i].kind is Task && before.outbox@[i].key@
        == worker.queue@ && (before.outbox@[i].status is Pending
        || before.outbox@[i].status is Claimed) && before.outbox@[i].visible_at <= before.now {
        visible_task_can_be_claimed(
            before,
            after,
            claimed,
            worker.queue@,
            worker.visibility_timeout,
            i,
        );
    }
    if let Ok(Some(taken)) = claimed {
        claim_takes_the_most_urgent_task(
            before,
            after,
            taken,
            worker.queue@,
            worker.visibility_timeout,
        );
        let j = choose|j: int|
            {
                let row = before.outbox@[j];
                let now_claimed = #[trigger] after.outbox@[j];
                &&& 0 <= j < before.outbox@.len()
                &&& row.kind is Task
                &&& row.key@ == worker.queue@
                &&& row.status is Pending || row.status is Claimed
                &&& row.visible_at <= before.now
                &&& now_claimed.status is Claimed
                &&& now_claimed.visible_at == before.now + worker.visibility_timeout.micros
                &&& now_claimed.attempts == row.attempts + 1
                &&& taken.id == row.id
                &&& taken.queue@ == worker.queue@
                &&& taken.payload@ == row.payload@
                &&& taken.attempts == row.attempts + 1
                &&& taken.max_retries == row.max_retries
            };
        assert(before.outbox@[j].kind is Task);
    }
}

/// A worker whose handler failed gives the task up once it has been tried as often as it may be, and
/// otherwise puts it off. A task that is still pending or claimed and has been tried fewer than forty
/// times can always be put off.
pub proof fn worker_gives_up_after_the_last_attempt(
    worker: Worker,
    before: Store,
    after: Store,
    event: WorkerEvent,
    task: Option<Task>,
    held: Held,
    i: int,
)
    requires
        performed(worker, before, after, WorkerStep::Fail(held), event, task),
        attempts_in_range(held.max_retries, held.attempts),
        0 <= i < before.outbox@.len(),
        before.outbox@[i].id == held.task_id,
    ensures
        event is Done,
        held.attempts >= held.max_retries ==> after.outbox@[i].status is Dead
            && after.outbox@[i].delivered_at == Some(before.now),
        held.attempts < held.max_retries ==> (after.outbox@[i].status is Pending
            && after.outbox@[i].visible_at > before.now) || after.outbox@[i] == before.outbox@[i],
        held.attempts < held.max_retries && held.attempts < 40 && before.wf() && (
        before.outbox@[i].status is Pending || before.outbox@[i].status is Claimed)
            ==> after.outbox@[i].status is Pending && after.outbox@[i].visible_at > before.now,
{
    let r = choose|r: Result<()>| #[trigger]
        crate::relay::failed(before, after, r, held.task_id, held.max_retries, held.attempts);
    if r is Ok {
        failure_decides_by_attempts(
            before,
            after,
            r,
            held.task_id,
            held.max_retries,
            held.attempts,
            i,
        );
        if held.attempts >= 1 {
            vstd::arithmetic::power2::lemma_pow2_pos((held.attempts - 1) as nat);
        }
    } else if held.attempts < held.max_retries && held.attempts < 40 && before.wf() && (
    before.outbox@[i].status is Pending || before.outbox@[i].status is Claimed) {
        active_task_can_fail(
            before,
            after,
            r,
            held.task_id,
            held.max_retries,
            held.attempts,
            i,
        );
    }
}

/// A subscriber that reads its feed gets, in their order, events of its entity type behind the cursor
/// and no more than it reads at a time. It gets every such event before which no open transaction can
/// still put another, as long as there is room.
pub proof fn subscriber_reads_its_feed(
    subscriber: Subscriber,
    before: Store,
    after: Store,
    cursor: i64,
    batch: Seq<OutboxRow>,
    event: Option<SubscriberEvent>,
    read: Option<Seq<OutboxRow>>,
    entity_id: Seq<char>,
    i: int,
    j: int,
    k: int,
)
    requires
        subscriber_performed(
            subscriber,
            before,
            after,
            SubscriberStep::Poll { after: cursor },
            batch,
            event,
            read,
        ),
    ensures
        after == before,
        subscriber.batch_size < 0 ==> event == Some(SubscriberEvent::Failed) && read is None,
        subscriber.batch_size >= 0 ==> {
            &&& read is Some
            &&& event is Some
            &&& event->0 is Polled
            &&& event->0->Polled_count == read->0.len()
        },
        read matches Some(found) ==> {
            &&& found.len() <= subscriber.batch_size
            &&& (0 <= k < found.len() ==> {
                &&& found[k].id > cursor
                &&& found[k].kind is Event
                &&& like(subscriber.entity_type@ + ":"@ + "%"@, found[k].key@)
            })
            &&& (0 <= j < k < found.len() ==> found[j].id < found[k].id)
            &&& (!subscriber.entity_type@.contains('\\') && 0 <= i < before.outbox@.len()
                && before.outbox@[i].kind is Event && before.outbox@[i].key@
                == subscriber.entity_type@ + ":"@ + entity_id && before.outbox@[i].id > cursor && (
            forall|h: int|
                0 <= h < before.held@.len() ==> before.outbox@[i].id < #[trigger] before.held@[h])
                ==> (exists|q: int|
                0 <= q < found.len() && (#[trigger] found[q]).id == before.outbox@[i].id) || (
            found.len() == subscriber.batch_size && forall|q: int|
                0 <= q < found.len() ==> (#[trigger] found[q]).id < before.outbox@[i].id))
        },
{
    if let Some(found) = read {
        if 0 <= k < found.len() {
            assert(crate::subscriber::stands_in(found[k], before.outbox@));
        }
        if 0 <= j < k < found.len() {
            assert(found[j].id < found[k].id);
        }
        if !subscriber.entity_type@.contains('\\') && 0 <= i < before.outbox@.len()
            && before.outbox@[i].kind is Event && before.outbox@[i].key@ == subscriber.entity_type@
            + ":"@ + entity_id && before.outbox@[i].id > cursor && (forall|h: int|
            0 <= h < before.held@.len() ==> before.outbox@[i].id < #[trigger] before.held@[h]) {
            feed_leaves_no_event_out(
                before,
                subscriber.entity_type@,
                entity_id,
                cursor,
                subscriber.batch_size as int,
                found,
                i,
            );
        }
    }
}

} // verus!
