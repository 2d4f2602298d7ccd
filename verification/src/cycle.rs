//! The loop of a background job that works, waits and works again until it is told to stop.
use vstd::prelude::*;

verus! {

/// What a background job does next.
#[derive(Debug, Clone, Copy, PartialEq, Eq, Structural)]
pub enum CycleStep {
    /// Ask whether it has been told to stop.
    Check,
    /// Do a round of its work.
    Work,
    /// Wait for the interval to pass, or to be told to stop.
    Wait,
    /// Nothing more.
    Stop,
}

/// How a step ended.
#[derive(Debug, Clone, Copy, PartialEq, Eq, Structural)]
pub enum CycleEvent {
    /// Whether the job had been told to stop.
    Token { cancelled: bool },
    /// A round is over, whether it succeeded or not.
    Worked,
    /// The interval has passed.
    Elapsed,
    /// The job was told to stop.
    Cancelled,
}

impl CycleStep {
    /// The step after this one. An event that the step does not end with changes nothing.
    pub open spec fn after(self, event: CycleEvent) -> CycleStep {
        match (self, event) {
            (CycleStep::Check, CycleEvent::Token { cancelled }) => if cancelled {
                CycleStep::Stop
            } else {
                CycleStep::Work
            },
            (CycleStep::Work, CycleEvent::Worked) => CycleStep::Wait,
            (CycleStep::Wait, CycleEvent::Elapsed) => CycleStep::Check,
            (CycleStep::Wait, CycleEvent::Cancelled) => CycleStep::Stop,
            _ => self,
        }
    }

    /// The first step.
    pub fn first() -> (r: CycleStep)
        ensures
            r is Check,
    {
        CycleStep::Check
    }

    /// The step after this one.
    pub fn next(self, event: CycleEvent) -> (r: CycleStep)
        ensures
            r == self.after(event),
    {
        match (self, event) {
            (CycleStep::Check, CycleEvent::Token { cancelled }) => if cancelled {
                CycleStep::Stop
            } else {
                CycleStep::Work
            },
            (CycleStep::Work, CycleEvent::Worked) => CycleStep::Wait,
            (CycleStep::Wait, CycleEvent::Elapsed) => CycleStep::Check,
            (CycleStep::Wait, CycleEvent::Cancelled) => CycleStep::Stop,
            _ => self,
        }
    }
}

/// The step that a series of events leads to.
pub open spec fn cycle_after(step: CycleStep, events: Seq<CycleEvent>) -> CycleStep
    decreases events.len(),
{
    if events.len() == 0 {
        step
    } else {
        cycle_after(step, events.drop_last()).after(events.last())
    }
}

/// Whether the job is told in every event that could tell it so that it is to stop.
pub open spec fn all_cancelled(events: Seq<CycleEvent>) -> bool {
    forall|i: int|
        0 <= i < events.len() ==> ((#[trigger] events[i]) matches CycleEvent::Token { cancelled }
            ==> cancelled)
}

/// A job that has stopped stays so.
pub proof fn stopped_job_stays_stopped(events: Seq<CycleEvent>)
    ensures
        cycle_after(CycleStep::Stop, events) is Stop,
    decreases events.len(),
{
    if events.len() > 0 {
        stopped_job_stays_stopped(events.drop_last());
    }
}

/// A job that has been told to stop begins no further round: at most the round in which it is comes
/// to its end.
pub proof fn no_round_after_shutdown(step: CycleStep, events: Seq<CycleEvent>)
    requires
        all_cancelled(events),
        !(step is Work),
    ensures
        !(cycle_after(step, events) is Work),
    decreases events.len(),
{
    if events.len() > 0 {
        let before = events.drop_last();
        assert forall|i: int| 0 <= i < before.len() implies ((
        #[trigger] before[i]) matches CycleEvent::Token { cancelled } ==> cancelled) by {
            assert(before[i] == events[i]);
        }
        no_round_after_shutdown(step, before);
        assert(events.last() == events[events.len() - 1]);
    }
}

} // verus!
