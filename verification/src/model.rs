use vstd::prelude::*;
use crate::transition::Transition;

verus! {

/// The mathematical content of a transition table: a map from a cell, written
/// `(event, state)`, to the state that follows.
pub type Table = Map<(int, int), int>;

/// Whether `cell` names an event below `events` and a state below `states`.
pub open spec fn in_bounds(cell: (int, int), states: int, events: int) -> bool {
    0 <= cell.0 < events && 0 <= cell.1 < states
}

/// The table in which no event changes any state.
pub open spec fn identity_table(states: int, events: int) -> Table {
    Map::new(|cell: (int, int)| in_bounds(cell, states, events), |cell: (int, int)| cell.1)
}

/// The table after one transition has been written into it.
pub open spec fn apply(table: Table, transition: Transition) -> Table {
    table.insert(transition.cell(), transition.to_state as int)
}

/// The table after the transitions have been written into it, first to last.
pub open spec fn apply_all(table: Table, transitions: Seq<Transition>) -> Table
    decreases transitions.len(),
{
    if transitions.len() == 0 {
        table
    } else {
        apply(apply_all(table, transitions.drop_last()), transitions.last())
    }
}

/// The table that a list of transitions describes: the identity table with
/// the transitions written into it, first to last.
pub open spec fn compiled(transitions: Seq<Transition>, states: int, events: int) -> Table {
    apply_all(identity_table(states, events), transitions)
}

/// Whether every transition of the sequence lies inside the given dimensions.
pub open spec fn all_fit(transitions: Seq<Transition>, states: int, events: int) -> bool {
    forall|i: int| 0 <= i < transitions.len() ==> (#[trigger] transitions[i]).fits(states, events)
}

/// Whether `table` is total on the given dimensions, defined nowhere else,
/// and sends every state to a state.
pub open spec fn is_total(table: Table, states: int, events: int) -> bool {
    &&& forall|cell: (int, int)| #[trigger]
        table.dom().contains(cell) <==> in_bounds(cell, states, events)
    &&& forall|cell: (int, int)|
        in_bounds(cell, states, events) ==> 0 <= #[trigger] table[cell] < states
}

/// Whether some transition of the sequence writes `cell`.
pub open spec fn writes(transitions: Seq<Transition>, cell: (int, int)) -> bool {
    exists|i: int| 0 <= i < transitions.len() && (#[trigger] transitions[i]).cell() == cell
}

/// The position of the last transition that writes `cell`, or `-1` where
/// none does.
pub open spec fn last_writer(transitions: Seq<Transition>, cell: (int, int)) -> int
    decreases transitions.len(),
{
    if transitions.len() == 0 {
        -1
    } else if transitions.last().cell() == cell {
        transitions.len() - 1
    } else {
        last_writer(transitions.drop_last(), cell)
    }
}

/// Whether no two transitions of the sequence write the same cell.
pub open spec fn distinct_cells(transitions: Seq<Transition>) -> bool {
    forall|i: int, j: int|
        0 <= i < j < transitions.len() ==> (#[trigger] transitions[i]).cell()
            != (#[trigger] transitions[j]).cell()
}

} // verus!
