use vstd::prelude::*;
use crate::model::{
    Table, all_fit, apply, apply_all, compiled, identity_table, in_bounds, is_total,
};
use crate::transition::Transition;

verus! {

/// A transition table for `STATE_COUNT` states and `EVENT_COUNT` events.
///
/// Every cell always holds a state below `STATE_COUNT`, so the result of one
/// query can be fed into the next.
pub struct FSM<const STATE_COUNT: usize, const EVENT_COUNT: usize> {
    storage: [[usize; STATE_COUNT]; EVENT_COUNT],
}

impl<const STATE_COUNT: usize, const EVENT_COUNT: usize> View for FSM<STATE_COUNT, EVENT_COUNT> {
    type V = Table;

    closed spec fn view(&self) -> Table {
        Map::new(
            |cell: (int, int)| in_bounds(cell, STATE_COUNT as int, EVENT_COUNT as int),
            |cell: (int, int)| self.storage[cell.0][cell.1] as int,
        )
    }
}

impl<const STATE_COUNT: usize, const EVENT_COUNT: usize> FSM<STATE_COUNT, EVENT_COUNT> {
    #[verifier::type_invariant]
    spec fn cells_are_states(&self) -> bool {
        forall|event: int, state: int|
            0 <= event < EVENT_COUNT && 0 <= state < STATE_COUNT
                ==> #[trigger] self.storage[event][state] < STATE_COUNT
    }

    /// The cells of a table are those inside its dimensions, whatever has
    /// been written into it.
    pub proof fn lemma_view_domain(&self)
        ensures
            forall|cell: (int, int)| #[trigger]
                self@.dom().contains(cell) <==> in_bounds(
                    cell,
                    STATE_COUNT as int,
                    EVENT_COUNT as int,
                ),
    {
    }

    /// The table in which no event changes any state.
    pub fn new() -> (fsm: Self)
        requires
            STATE_COUNT >= 1,
            EVENT_COUNT >= 1,
        ensures
            fsm@ == identity_table(STATE_COUNT as int, EVENT_COUNT as int),
            is_total(fsm@, STATE_COUNT as int, EVENT_COUNT as int),
    {
        let mut row = [0usize; STATE_COUNT];
        let mut state: usize = 0;
        while state < STATE_COUNT
            invariant
                state <= STATE_COUNT,
                forall|s: int| 0 <= s < state ==> row[s] == s,
            decreases STATE_COUNT - state,
        {
            row[state] = state;
            state += 1;
        }
        let fsm = FSM { storage: [row; EVENT_COUNT] };
        assert(fsm@ =~= identity_table(STATE_COUNT as int, EVENT_COUNT as int));
        fsm
    }

    /// Writes one transition: from now on `when_event` leads from
    /// `from_state` to `to_state`. Every other cell is left as it was.
    pub fn add_transition(&mut self, transition: &Transition)
        requires
            transition.fits(STATE_COUNT as int, EVENT_COUNT as int),
        ensures
            final(self)@ == apply(old(self)@, *transition),
            is_total(final(self)@, STATE_COUNT as int, EVENT_COUNT as int),
    {
        proof {
            use_type_invariant(&*self);
        }
        self.storage[transition.when_event][transition.from_state] = transition.to_state;
        assert(self@ =~= apply(old(self)@, *transition));
    }

    /// Writes the transitions in the order given. Where two of them name the
    /// same cell, the later one stays.
    pub fn add_transitions(&mut self, transitions: &[Transition])
        requires
            all_fit(transitions@, STATE_COUNT as int, EVENT_COUNT as int),
        ensures
            final(self)@ == apply_all(old(self)@, transitions@),
            is_total(final(self)@, STATE_COUNT as int, EVENT_COUNT as int),
    {
        proof {
            use_type_invariant(&*self);
        }
        let mut done: usize = 0;
        while done < transitions.len()
            invariant
                done <= transitions.len(),
                all_fit(transitions@, STATE_COUNT as int, EVENT_COUNT as int),
                self@ == apply_all(old(self)@, transitions@.take(done as int)),
                is_total(self@, STATE_COUNT as int, EVENT_COUNT as int),
            decreases transitions.len() - done,
        {
            assert(transitions@.take(done + 1).drop_last() =~= transitions@.take(done as int));
            self.add_transition(&transitions[done]);
            done += 1;
        }
        assert(transitions@.take(done as int) =~= transitions@);
    }

    /// The table that the transitions describe: every cell that none of them
    /// names keeps its state.
    pub fn compile(transitions: &[Transition]) -> (fsm: Self)
        requires
            STATE_COUNT >= 1,
            EVENT_COUNT >= 1,
            all_fit(transitions@, STATE_COUNT as int, EVENT_COUNT as int),
        ensures
            fsm@ == compiled(transitions@, STATE_COUNT as int, EVENT_COUNT as int),
            is_total(fsm@, STATE_COUNT as int, EVENT_COUNT as int),
    {
        let mut fsm = FSM::new();
        fsm.add_transitions(transitions);
        fsm
    }

    /// The state that follows `current_state` when `thrown_event` occurs.
    pub fn get_next_state(&self, current_state: usize, thrown_event: usize) -> (next: usize)
        requires
            current_state < STATE_COUNT,
            thrown_event < EVENT_COUNT,
        ensures
            self@.dom().contains((thrown_event as int, current_state as int)),
            next == self@[(thrown_event as int, current_state as int)],
            next < STATE_COUNT,
    {
        proof {
            use_type_invariant(self);
        }
        self.storage[thrown_event][current_state]
    }
}

} // verus!
