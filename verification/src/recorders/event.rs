//! Events: runs of periods in which a condition held, from the period in which it began to
//! the first period in which it no longer held.

use vstd::prelude::*;

use crate::timestep::{datetime_difference, duration_between, CivilDateTime, DateTimeView, PywrDuration};

verus! {

/// A run of time in which a condition held: it began at `start` and, once over, ended at
/// `end`.
#[derive(Debug, Clone, Copy, PartialEq, Eq, Structural)]
pub struct Event {
    pub start: CivilDateTime,
    pub end: Option<CivilDateTime>,
}

impl Event {
    /// How long the event lasted, from its start to its end; `None` while it has not ended.
    pub fn duration(&self) -> (r: Option<PywrDuration>)
        ensures
            match self.end {
                Some(end) => r is Some && r->0@ == datetime_difference(end@, self.start@),
                None => r is None,
            },
    {
        match &self.end {
            Some(end) => Some(duration_between(end, &self.start)),
            None => None,
        }
    }
}

/// Whether an event is under way, and since when.
#[derive(Debug, Clone, Copy, PartialEq, Eq, Structural)]
enum EventState {
    Ended,
    Started(CivilDateTime),
}

/// What an event aggregator remembers between periods: the start of the event under way,
/// if there is one.
#[derive(Debug, Clone, Copy)]
pub struct EventAggregatorState {
    current: EventState,
}

impl View for EventAggregatorState {
    type V = Option<DateTimeView>;

    closed spec fn view(&self) -> Option<DateTimeView> {
        match self.current {
            EventState::Ended => None,
            EventState::Started(start) => Some(start@),
        }
    }
}

/// The start of the event under way after a period that starts at `period_start`, in which
/// the condition holds or not: an event goes on while the condition holds, begins in the
/// first period in which it holds, and ends in the first in which it does not.
pub open spec fn next_event_start(
    current: Option<DateTimeView>,
    active: bool,
    period_start: DateTimeView,
) -> Option<DateTimeView> {
    if !active {
        None
    } else {
        match current {
            Some(start) => Some(start),
            None => Some(period_start),
        }
    }
}

/// The start of the event under way after a run of periods, from no event, given whether
/// the condition held in each and when each began.
pub open spec fn event_start_after(active: Seq<bool>, starts: Seq<DateTimeView>) -> Option<DateTimeView>
    decreases active.len(),
{
    if active.len() == 0 {
        None
    } else {
        next_event_start(
            event_start_after(active.drop_last(), starts.drop_last()),
            active.last(),
            starts[active.len() - 1],
        )
    }
}

/// The index of the first period of the run of periods at the end of `active` in which the
/// condition held; the length of `active` where it did not hold in the last one.
pub open spec fn trailing_run_start(active: Seq<bool>) -> int
    decreases active.len(),
{
    if active.len() == 0 {
        0
    } else if active.last() {
        trailing_run_start(active.drop_last())
    } else {
        active.len() as int
    }
}

impl Default for EventAggregatorState {
    fn default() -> (r: Self)
        ensures
            r@ is None,
    {
        EventAggregatorState { current: EventState::Ended }
    }
}

impl EventAggregatorState {
    /// Takes the next period, which starts at `period_start` and in which the condition holds
    /// (`active`) or not. Where that ends an event under way, returns the event, from the
    /// start of its first period to the start of this one.
    pub fn process_activity(&mut self, active: bool, period_start: CivilDateTime) -> (event: Option<Event>)
        ensures
            final(self)@ == next_event_start(old(self)@, active, period_start@),
            match event {
                Some(e) => old(self)@ is Some && !active && e.start@ == old(self)@->0 && e.end
                    == Some(period_start),
                None => active || old(self)@ is None,
            },
    {
        let (next, event) = match (self.current, active) {
            (EventState::Ended, true) => (EventState::Started(period_start), None),
            (EventState::Started(started), false) => (
                EventState::Ended,
                Some(Event { start: started, end: Some(period_start) }),
            ),
            (EventState::Started(started), true) => (EventState::Started(started), None),
            (EventState::Ended, false) => (EventState::Ended, None),
        };
        self.current = next;
        event
    }
}

/// After any run of periods, an event is under way exactly when the condition held in the
/// last period, and it started at the first period of the run of periods, at the end, in
/// which the condition held throughout.
pub proof fn law_event_starts_with_its_run(active: Seq<bool>, starts: Seq<DateTimeView>)
    requires
        active.len() == starts.len(),
    ensures
        0 <= trailing_run_start(active) <= active.len(),
        event_start_after(active, starts) == if trailing_run_start(active) < active.len() {
            Some(starts[trailing_run_start(active)])
        } else {
            None::<DateTimeView>
        },
        event_start_after(active, starts) is Some <==> (active.len() > 0 && active.last()),
    decreases active.len(),
{
    if active.len() > 0 {
        let (a, s) = (active.drop_last(), starts.drop_last());
        law_event_starts_with_its_run(a, s);
        if active.last() && trailing_run_start(a) < a.len() {
            assert(starts[trailing_run_start(a)] == s[trailing_run_start(a)]);
        }
    }
}

} // verus!
