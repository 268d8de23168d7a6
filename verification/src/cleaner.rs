//! The tip pool cleaner: when a pass over the tips is due.
//!
//! The cleaner itself waits and is woken from outside; what it does next is
//! decided here, from its state and from what happened.

use vstd::prelude::*;

verus! {

/// What the cleaner is doing.
#[derive(Clone, Copy, Debug, PartialEq, Eq, Structural)]
pub enum CleanerState {
    /// Waiting for the next pass to be due.
    Idle,
    /// A pass over the tips is under way.
    Scanning,
    /// The cleaner was told to stop, and does nothing any more.
    Stopped,
}

/// What happened to the cleaner.
#[derive(Clone, Copy, Debug, PartialEq, Eq, Structural)]
pub enum CleanerEvent {
    /// The interval has passed; holds the present time.
    Tick(u64),
    /// The pass that was under way has ended, well or not.
    PassEnded,
    /// The node shuts down.
    Cancelled,
}

/// What the cleaner is to do next.
#[derive(Clone, Copy, Debug, PartialEq, Eq, Structural)]
pub enum CleanerAction {
    /// Remove the tips that are stale at the given time.
    Scan(u64),
    /// Wait for the given time, then report a tick.
    Wait(u64),
    /// End the task.
    Stop,
    /// Nothing.
    Ignore,
}

/// The state that follows `state` when `event` happens. A pass starts at a tick
/// when none is under way, and is followed by waiting; a cancellation ends the
/// cleaner for good.
pub open spec fn next_state(state: CleanerState, event: CleanerEvent) -> CleanerState {
    match (state, event) {
        (CleanerState::Stopped, _) => CleanerState::Stopped,
        (_, CleanerEvent::Cancelled) => CleanerState::Stopped,
        (CleanerState::Idle, CleanerEvent::Tick(_)) => CleanerState::Scanning,
        (CleanerState::Scanning, CleanerEvent::PassEnded) => CleanerState::Idle,
        (CleanerState::Idle, CleanerEvent::PassEnded) => CleanerState::Idle,
        (CleanerState::Scanning, CleanerEvent::Tick(_)) => CleanerState::Scanning,
    }
}

/// What is to be done when `event` happens in `state`, where `interval` is the
/// time between two passes.
pub open spec fn action_for(state: CleanerState, event: CleanerEvent, interval: u64) -> CleanerAction {
    match (state, event) {
        (CleanerState::Stopped, _) => CleanerAction::Ignore,
        (_, CleanerEvent::Cancelled) => CleanerAction::Stop,
        (CleanerState::Idle, CleanerEvent::Tick(now)) => CleanerAction::Scan(now),
        (CleanerState::Scanning, CleanerEvent::PassEnded) => CleanerAction::Wait(interval),
        (CleanerState::Idle, CleanerEvent::PassEnded) => CleanerAction::Ignore,
        (CleanerState::Scanning, CleanerEvent::Tick(_)) => CleanerAction::Ignore,
    }
}

/// The state after each of `events` happened in turn.
pub open spec fn state_after(state: CleanerState, events: Seq<CleanerEvent>) -> CleanerState
    decreases events.len(),
{
    if events.len() == 0 {
        state
    } else {
        next_state(state_after(state, events.drop_last()), events.last())
    }
}

/// The periodic task that removes stale tips.
#[derive(Clone, Copy, Debug, PartialEq, Eq, Structural)]
pub struct TipPoolCleaner {
    /// What the cleaner is doing.
    pub state: CleanerState,
    /// The time between two passes.
    pub interval: u64,
}

impl TipPoolCleaner {
    /// A cleaner that waits for its first tick.
    pub fn new(interval: u64) -> (cleaner: Self)
        ensures
            cleaner == (TipPoolCleaner { state: CleanerState::Idle, interval }),
    {
        TipPoolCleaner { state: CleanerState::Idle, interval }
    }

    /// Takes note of `event` and tells what is to be done.
    pub fn on_event(&mut self, event: CleanerEvent) -> (action: CleanerAction)
        ensures
            final(self).interval == old(self).interval,
            final(self).state == next_state(old(self).state, event),
            action == action_for(old(self).state, event, old(self).interval),
    {
        let (next, action) = match (self.state, event) {
            (CleanerState::Stopped, _) => (CleanerState::Stopped, CleanerAction::Ignore),
            (_, CleanerEvent::Cancelled) => (CleanerState::Stopped, CleanerAction::Stop),
            (CleanerState::Idle, CleanerEvent::Tick(now)) => (
                CleanerState::Scanning,
                CleanerAction::Scan(now),
            ),
            (CleanerState::Scanning, CleanerEvent::PassEnded) => (
                CleanerState::Idle,
                CleanerAction::Wait(self.interval),
            ),
            (CleanerState::Idle, CleanerEvent::PassEnded) => (
                CleanerState::Idle,
                CleanerAction::Ignore,
            ),
            (CleanerState::Scanning, CleanerEvent::Tick(_)) => (
                CleanerState::Scanning,
                CleanerAction::Ignore,
            ),
        };
        self.state = next;
        action
    }

    /// Whether the cleaner was told to stop.
    pub fn is_stopped(&self) -> (b: bool)
        ensures
            b == (self.state == CleanerState::Stopped),
    {
        matches!(self.state, CleanerState::Stopped)
    }
}

/// A cleaner that was stopped stays stopped, whatever happens.
pub proof fn lemma_stopped_for_good(events: Seq<CleanerEvent>)
    ensures
        state_after(CleanerState::Stopped, events) == CleanerState::Stopped,
    decreases events.len(),
{
    if events.len() > 0 {
        lemma_stopped_for_good(events.drop_last());
    }
}

/// A pass is asked for only while none is under way, and only at a tick.
pub proof fn lemma_one_pass_at_a_time(state: CleanerState, event: CleanerEvent, interval: u64)
    ensures
        action_for(state, event, interval) is Scan ==> state == CleanerState::Idle && event is Tick
            && next_state(state, event) == CleanerState::Scanning,
        next_state(state, event) == CleanerState::Scanning ==> state == CleanerState::Scanning
            || action_for(state, event, interval) is Scan,
{
}

} // verus!
