use vstd::prelude::*;

verus! {

/// One edge of a state machine: in `from_state`, the event `when_event` leads
/// to `to_state`.
#[derive(Clone, Copy, Debug, PartialEq, Eq, Structural)]
pub struct Transition {
    pub from_state: usize,
    pub to_state: usize,
    pub when_event: usize,
}

impl Transition {
    /// The table cell that this transition writes, as `(event, state)`.
    pub open spec fn cell(&self) -> (int, int) {
        (self.when_event as int, self.from_state as int)
    }

    /// Whether all three indices lie inside a table of `states` states and
    /// `events` events.
    pub open spec fn fits(&self, states: int, events: int) -> bool {
        &&& self.from_state < states
        &&& self.to_state < states
        &&& self.when_event < events
    }

    pub fn new(from_state: usize, to_state: usize, when_event: usize) -> (transition: Self)
        ensures
            transition.from_state == from_state,
            transition.to_state == to_state,
            transition.when_event == when_event,
    {
        Transition { from_state, to_state, when_event }
    }
}

} // verus!
