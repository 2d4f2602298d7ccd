//! The relay's loop: it takes events from the outbox and hands each over to its handler.
use vstd::prelude::*;

use crate::relay::{relay_polled, with_outbox, Relay};
use crate::store::Store;
use crate::types::OutboxRow;

verus! {

/// What the relay does next.
#[derive(Debug, Clone, Copy, PartialEq, Eq, Structural)]
pub enum RelayStep {
    /// Ask whether it has been told to stop.
    Check,
    /// Take events from the outbox.
    Poll,
    /// Hand over one of the events that it took.
    Hand { index: usize, count: usize },
    /// Wait for the interval to pass, or to be told to stop.
    Wait,
    /// Nothing more.
    Stop,
}

/// How a step ended.
#[derive(Debug, Clone, Copy, PartialEq, Eq, Structural)]
pub enum RelayEvent {
    /// Whether the relay had been told to stop.
    Token { cancelled: bool },
    /// So many events were taken.
    Polled { count: usize },
    /// No events could be taken.
    Failed,
    /// The handler is done with the event.
    Handed,
    /// The interval has passed.
    Elapsed,
    /// The relay was told to stop.
    Cancelled,
}

impl RelayStep {
    /// The step after this one. An event that the step does not end with changes nothing.
    pub open spec fn after(self, event: RelayEvent) -> RelayStep {
        match (self, event) {
            (RelayStep::Check, RelayEvent::Token { cancelled }) => if cancelled {
                RelayStep::Stop
            } else {
                RelayStep::Poll
            },
            (RelayStep::Poll, RelayEvent::Polled { count }) => if count > 0 {
                RelayStep::Hand { index: 0, count }
            } else {
                RelayStep::Wait
            },
            (RelayStep::Poll, RelayEvent::Failed) => RelayStep::Wait,
            (RelayStep::Hand { index, count }, RelayEvent::Handed) => if index + 1 < count {
                RelayStep::Hand { index: (index + 1) as usize, count }
            } else {
                RelayStep::Wait
            },
            (RelayStep::Wait, RelayEvent::Elapsed) => RelayStep::Check,
            (RelayStep::Wait, RelayEvent::Cancelled) => RelayStep::Stop,
            _ => self,
        }
    }

    /// The first step.
    pub fn first() -> (r: RelayStep)
        ensures
            r is Check,
    {
        RelayStep::Check
    }

    /// The step after this one.
    pub fn next(self, event: RelayEvent) -> (r: RelayStep)
        ensures
            r == self.after(event),
    {
        match (self, event) {
            (RelayStep::Check, RelayEvent::Token { cancelled }) => if cancelled {
                RelayStep::Stop
            } else {
                RelayStep::Poll
            },
            (RelayStep::Poll, RelayEvent::Polled { count }) => if count > 0 {
                RelayStep::Hand { index: 0, count }
            } else {
                RelayStep::Wait
            },
            (RelayStep::Poll, RelayEvent::Failed) => RelayStep::Wait,
            (RelayStep::Hand { index, count }, RelayEvent::Handed) => if index < count && count
                - index > 1 {
                RelayStep::Hand { index: index + 1, count }
            } else {
                RelayStep::Wait
            },
            (RelayStep::Wait, RelayEvent::Elapsed) => RelayStep::Check,
            (RelayStep::Wait, RelayEvent::Cancelled) => RelayStep::Stop,
            _ => self,
        }
    }
}

/// Whether a relay took events from the outbox, and told how many they were. It cannot take fewer
/// than none.
pub open spec fn relay_stepped(
    relay: Relay,
    before: Store,
    after: Store,
    event: RelayEvent,
    found: Seq<OutboxRow>,
) -> bool {
    &&& after == with_outbox(before, after)
    &&& if relay.batch_size >= 0 {
        &&& relay_polled(before, after, relay.batch_size as int, found)
        &&& event == (RelayEvent::Polled { count: found.len() as usize })
        &&& found.len() <= usize::MAX
    } else {
        &&& after.outbox@ == before.outbox@
        &&& event is Failed
        &&& found.len() == 0
    }
}

impl Relay {
    /// Takes events from the outbox, and hands out how that ended with what was taken.
    pub fn poll_step(&self, store: &mut Store) -> (r: (RelayEvent, Vec<OutboxRow>))
        requires
            old(store).wf(),
        ensures
            final(store).wf(),
            relay_stepped(*self, *old(store), *final(store), r.0, r.1@),
    {
        match self.poll_pending(store) {
            Ok(found) => {
                let count: usize = found.len();
                assert(found@.len() == count);
                (RelayEvent::Polled { count }, found)
            },
            Err(_) => (RelayEvent::Failed, Vec::new()),
        }
    }
}

/// The step that a series of events leads to.
pub open spec fn relay_after(step: RelayStep, events: Seq<RelayEvent>) -> RelayStep
    decreases events.len(),
{
    if events.len() == 0 {
        step
    } else {
        relay_after(step, events.drop_last()).after(events.last())
    }
}

/// The rows that are handed over during a series of events, if `found` are those that were taken.
pub open spec fn handed_over(
    found: Seq<OutboxRow>,
    step: RelayStep,
    events: Seq<RelayEvent>,
) -> Seq<OutboxRow>
    decreases events.len(),
{
    if events.len() == 0 {
        Seq::empty()
    } else {
        let before = events.drop_last();
        let handed = handed_over(found, step, before);
        match (relay_after(step, before), events.last()) {
            (RelayStep::Hand { index, .. }, RelayEvent::Handed) => handed.push(found[index as int]),
            _ => handed,
        }
    }
}

/// Whether a series of events holds no further poll, unless it ends where one is to come.
pub open spec fn until_next_poll(step: RelayStep, events: Seq<RelayEvent>) -> bool {
    forall|k: int|
        0 <= k < events.len() ==> !(#[trigger] relay_after(step, events.take(k)) is Poll)
}

/// Whether the relay is told in every event that could tell it so that it is to stop.
pub open spec fn relay_cancelled(events: Seq<RelayEvent>) -> bool {
    forall|i: int|
        0 <= i < events.len() ==> ((#[trigger] events[i]) matches RelayEvent::Token { cancelled }
            ==> cancelled)
}

proof fn lemma_shorter(step: RelayStep, events: Seq<RelayEvent>)
    requires
        until_next_poll(step, events),
        events.len() > 0,
    ensures
        until_next_poll(step, events.drop_last()),
        !(relay_after(step, events.drop_last()) is Poll),
{
    let before = events.drop_last();
    assert forall|k: int| 0 <= k < before.len() implies !(#[trigger] relay_after(
        step,
        before.take(k),
    ) is Poll) by {
        assert(before.take(k) =~= events.take(k));
    }
    assert(events.take(events.len() - 1) =~= before);
}

/// Every row that was taken is handed over once, in the order in which the rows came, before the
/// relay takes more, waits or stops.
pub proof fn every_row_is_handed_over_once(found: Seq<OutboxRow>, events: Seq<RelayEvent>)
    requires
        found.len() <= usize::MAX,
        until_next_poll(
            RelayStep::Poll.after(RelayEvent::Polled { count: found.len() as usize }),
            events,
        ),
    ensures
        ({
            let start = RelayStep::Poll.after(RelayEvent::Polled { count: found.len() as usize });
            match relay_after(start, events) {
                RelayStep::Hand { index, count } => count == found.len() && index < count
                    && handed_over(found, start, events) == found.take(index as int),
                _ => handed_over(found, start, events) == found,
            }
        }),
    decreases events.len(),
{
    let start = RelayStep::Poll.after(RelayEvent::Polled { count: found.len() as usize });
    if events.len() == 0 {
        assert(found.take(0) =~= Seq::<OutboxRow>::empty());
        if found.len() == 0 {
            assert(found =~= Seq::<OutboxRow>::empty());
        }
    } else {
        lemma_shorter(start, events);
        let before = events.drop_last();
        every_row_is_handed_over_once(found, before);
        if let RelayStep::Hand { index, count } = relay_after(start, before) {
            let i = index as int;
            assert(found.take(i).push(found[i]) =~= found.take(i + 1));
            if i + 1 == count {
                assert(found.take(i + 1) =~= found);
            }
        }
    }
}

/// If the relay cannot take any rows it hands over none, and takes rows again after it has waited,
/// unless it is told to stop.
pub proof fn failed_poll_hands_over_nothing(found: Seq<OutboxRow>, events: Seq<RelayEvent>)
    requires
        until_next_poll(RelayStep::Poll.after(RelayEvent::Failed), events),
    ensures
        handed_over(found, RelayStep::Poll.after(RelayEvent::Failed), events).len() == 0,
        !(relay_after(RelayStep::Poll.after(RelayEvent::Failed), events) is Hand),
        RelayStep::Poll.after(RelayEvent::Failed).after(RelayEvent::Elapsed).after(
            RelayEvent::Token { cancelled: false },
        ) is Poll,
    decreases events.len(),
{
    if events.len() > 0 {
        lemma_shorter(RelayStep::Poll.after(RelayEvent::Failed), events);
        failed_poll_hands_over_nothing(found, events.drop_last());
    }
}

/// The rows in hand are handed over to the last, whether or not the relay is told to stop in between.
pub proof fn rows_in_hand_are_finished(
    found: Seq<OutboxRow>,
    index: usize,
    events: Seq<RelayEvent>,
)
    requires
        index < found.len() <= usize::MAX,
        events.len() <= found.len() - index,
        forall|i: int| 0 <= i < events.len() ==> (#[trigger] events[i]) is Handed,
    ensures
        ({
            let start = RelayStep::Hand { index, count: found.len() as usize };
            &&& handed_over(found, start, events) == found.subrange(
                index as int,
                index + events.len(),
            )
            &&& relay_after(start, events) == if index + events.len() < found.len() {
                RelayStep::Hand {
                    index: (index + events.len()) as usize,
                    count: found.len() as usize,
                }
            } else {
                RelayStep::Wait
            }
        }),
    decreases events.len(),
{
    if events.len() == 0 {
        assert(found.subrange(index as int, index as int) =~= Seq::<OutboxRow>::empty());
    } else {
        let before = events.drop_last();
        assert forall|i: int| 0 <= i < before.len() implies (#[trigger] before[i]) is Handed by {
            assert(before[i] == events[i]);
        }
        rows_in_hand_are_finished(found, index, before);
        assert(events.last() == events[events.len() - 1]);
        let at = index + before.len();
        assert(found.subrange(index as int, at).push(found[at]) =~= found.subrange(
            index as int,
            at + 1,
        ));
    }
}

/// A relay that has been told to stop takes no further rows.
pub proof fn no_poll_after_shutdown(step: RelayStep, events: Seq<RelayEvent>)
    requires
        relay_cancelled(events),
        !(step is Poll),
    ensures
        !(relay_after(step, events) is Poll),
    decreases events.len(),
{
    if events.len() > 0 {
        let before = events.drop_last();
        assert forall|i: int| 0 <= i < before.len() implies ((
        #[trigger] before[i]) matches RelayEvent::Token { cancelled } ==> cancelled) by {
            assert(before[i] == events[i]);
        }
        no_poll_after_shutdown(step, before);
        assert(events.last() == events[events.len() - 1]);
    }
}

/// A relay that has stopped stays so, and hands nothing over.
pub proof fn stopped_relay_stays_stopped(found: Seq<OutboxRow>, events: Seq<RelayEvent>)
    ensures
        relay_after(RelayStep::Stop, events) is Stop,
        handed_over(found, RelayStep::Stop, events).len() == 0,
    decreases events.len(),
{
    if events.len() > 0 {
        stopped_relay_stays_stopped(found, events.drop_last());
    }
}

} // verus!
