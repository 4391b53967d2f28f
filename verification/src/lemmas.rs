use vstd::prelude::*;
use crate::model::{
    Table, all_fit, apply, apply_all, compiled, distinct_cells, identity_table, in_bounds,
    is_total, last_writer, writes,
};
use crate::table::FSM;
use crate::transition::Transition;

verus! {

/// `last_writer` is `-1` exactly where no transition writes the cell;
/// otherwise it is the position of a transition that writes it, and no later
/// transition does.
pub proof fn lemma_last_writer(transitions: Seq<Transition>, cell: (int, int))
    ensures
        ({
            let last = last_writer(transitions, cell);
            &&& -1 <= last < transitions.len()
            &&& last == -1 <==> !writes(transitions, cell)
            &&& last >= 0 ==> transitions[last].cell() == cell
            &&& forall|j: int|
                last < j < transitions.len() ==> (#[trigger] transitions[j]).cell() != cell
        }),
    decreases transitions.len(),
{
    if transitions.len() > 0 {
        let front = transitions.drop_last();
        lemma_last_writer(front, cell);
        if transitions.last().cell() == cell {
            assert(transitions[transitions.len() - 1].cell() == cell);
        } else {
            let last = last_writer(transitions, cell);
            assert forall|j: int| last < j < transitions.len() implies (
                #[trigger] transitions[j]
            ).cell() != cell by {
                if j < front.len() {
                    assert(front[j] == transitions[j]);
                }
            }
            if writes(front, cell) {
                let i = choose|i: int| 0 <= i < front.len() && (#[trigger] front[i]).cell() == cell;
                assert(transitions[i] == front[i]);
            }
            if writes(transitions, cell) {
                let i = choose|i: int|
                    0 <= i < transitions.len() && (#[trigger] transitions[i]).cell() == cell;
                assert(front[i] == transitions[i]);
            }
            if last_writer(front, cell) >= 0 {
                assert(transitions[last_writer(front, cell)] == front[last_writer(front, cell)]);
            }
        }
    }
}

/// What a list of transitions leaves in each cell: the target of the last
/// transition that writes the cell, or what the cell held before where none
/// writes it. Cells are added to the table only by being written.
pub proof fn lemma_apply_all_cell(table: Table, transitions: Seq<Transition>, cell: (int, int))
    ensures
        apply_all(table, transitions).dom().contains(cell) <==> table.dom().contains(cell)
            || writes(transitions, cell),
        apply_all(table, transitions)[cell] == ({
            let last = last_writer(transitions, cell);
            if last >= 0 {
                transitions[last].to_state as int
            } else {
                table[cell]
            }
        }),
    decreases transitions.len(),
{
    lemma_last_writer(transitions, cell);
    if transitions.len() > 0 {
        let front = transitions.drop_last();
        lemma_apply_all_cell(table, front, cell);
        lemma_last_writer(front, cell);
        if transitions.last().cell() != cell && last_writer(front, cell) >= 0 {
            assert(transitions[last_writer(front, cell)] == front[last_writer(front, cell)]);
        }
    }
}

/// A table without transitions sends every state to itself, on every event.
pub proof fn lemma_identity_default(states: int, events: int, state: int, event: int)
    requires
        0 <= state < states,
        0 <= event < events,
    ensures
        identity_table(states, events).dom().contains((event, state)),
        identity_table(states, events)[(event, state)] == state,
        compiled(Seq::empty(), states, events)[(event, state)] == state,
{
    assert(in_bounds((event, state), states, events));
}

/// The identity table is total.
pub proof fn lemma_identity_is_total(states: int, events: int)
    ensures
        is_total(identity_table(states, events), states, events),
{
}

/// Writing a transition that fits the dimensions keeps a table total.
pub proof fn lemma_apply_keeps_total(
    table: Table,
    transition: Transition,
    states: int,
    events: int,
)
    requires
        is_total(table, states, events),
        transition.fits(states, events),
    ensures
        is_total(apply(table, transition), states, events),
{
    assert(in_bounds(transition.cell(), states, events));
}

/// Whatever transitions are written, as long as they fit the dimensions, the
/// table stays total: every cell inside the dimensions holds a state, and
/// there is no other cell.
pub proof fn lemma_apply_all_keeps_total(
    table: Table,
    transitions: Seq<Transition>,
    states: int,
    events: int,
)
    requires
        is_total(table, states, events),
        all_fit(transitions, states, events),
    ensures
        is_total(apply_all(table, transitions), states, events),
    decreases transitions.len(),
{
    if transitions.len() > 0 {
        let front = transitions.drop_last();
        assert forall|i: int| 0 <= i < front.len() implies (#[trigger] front[i]).fits(
            states,
            events,
        ) by {
            assert(front[i] == transitions[i]);
        }
        lemma_apply_all_keeps_total(table, front, states, events);
        assert(transitions[transitions.len() - 1].fits(states, events));
        lemma_apply_keeps_total(apply_all(table, front), transitions.last(), states, events);
    }
}

/// Every compiled table is total, whatever its transitions.
pub proof fn lemma_compiled_is_total(transitions: Seq<Transition>, states: int, events: int)
    requires
        all_fit(transitions, states, events),
    ensures
        is_total(compiled(transitions, states, events), states, events),
{
    lemma_identity_is_total(states, events);
    lemma_apply_all_keeps_total(identity_table(states, events), transitions, states, events);
}

/// Of two transitions that write the same cell, the one written last stays.
pub proof fn lemma_last_write_wins(table: Table, first: Transition, second: Transition)
    requires
        first.cell() == second.cell(),
    ensures
        apply_all(table, seq![first, second])[second.cell()] == second.to_state,
        apply_all(table, seq![second, first])[first.cell()] == first.to_state,
{
    lemma_later_write_wins(table, seq![first, second], 1);
    lemma_later_write_wins(table, seq![second, first], 1);
}

/// In a list of transitions, one after which no other writes the same cell
/// decides what the cell holds.
pub proof fn lemma_later_write_wins(table: Table, transitions: Seq<Transition>, i: int)
    requires
        0 <= i < transitions.len(),
        forall|j: int|
            i < j < transitions.len() ==> (#[trigger] transitions[j]).cell()
                != transitions[i].cell(),
    ensures
        apply_all(table, transitions).dom().contains(transitions[i].cell()),
        apply_all(table, transitions)[transitions[i].cell()] == transitions[i].to_state,
{
    let cell = transitions[i].cell();
    lemma_apply_all_cell(table, transitions, cell);
    lemma_last_writer(transitions, cell);
    let k = last_writer(transitions, cell);
    assert(writes(transitions, cell));
    if k < i {
        assert(transitions[i].cell() != cell);
    }
    if i < k {
        assert(transitions[k].cell() != cell);
    }
}

/// A cell that no transition of the list writes holds what it held before.
pub proof fn lemma_unwritten_cell_keeps(
    table: Table,
    transitions: Seq<Transition>,
    cell: (int, int),
)
    requires
        !writes(transitions, cell),
    ensures
        apply_all(table, transitions).dom().contains(cell) == table.dom().contains(cell),
        apply_all(table, transitions)[cell] == table[cell],
{
    lemma_apply_all_cell(table, transitions, cell);
    lemma_last_writer(transitions, cell);
}

/// Two transitions that write different cells can be written in either
/// order.
pub proof fn lemma_disjoint_swap(table: Table, a: Transition, b: Transition)
    requires
        a.cell() != b.cell(),
    ensures
        apply(apply(table, a), b) == apply(apply(table, b), a),
        apply_all(table, seq![a, b]) == apply_all(table, seq![b, a]),
{
    assert(apply(apply(table, a), b) =~= apply(apply(table, b), a));
    lemma_apply_all_pair(table, a, b);
    lemma_apply_all_pair(table, b, a);
}

/// Writing a list of two transitions is writing the first, then the second.
pub proof fn lemma_apply_all_pair(table: Table, a: Transition, b: Transition)
    ensures
        apply_all(table, seq![a, b]) == apply(apply(table, a), b),
{
    let both = seq![a, b];
    assert(both.drop_last() =~= seq![a]);
    assert(seq![a].drop_last() =~= Seq::<Transition>::empty());
    assert(apply_all(table, seq![a]) == apply(apply_all(table, Seq::empty()), a));
    assert(both.last() == b);
}

/// Transitions that write pairwise different cells give the same table in
/// whatever order they are written.
pub proof fn lemma_order_independent(
    table: Table,
    transitions: Seq<Transition>,
    reordered: Seq<Transition>,
)
    requires
        distinct_cells(transitions),
        transitions.to_multiset() == reordered.to_multiset(),
    ensures
        apply_all(table, transitions) == apply_all(table, reordered),
{
    transitions.to_multiset_ensures();
    reordered.to_multiset_ensures();
    let left = apply_all(table, transitions);
    let right = apply_all(table, reordered);
    assert forall|cell: (int, int)|
        (#[trigger] left.dom().contains(cell) <==> right.dom().contains(cell)) && left[cell]
            == right[cell] by {
        lemma_apply_all_cell(table, transitions, cell);
        lemma_apply_all_cell(table, reordered, cell);
        lemma_last_writer(transitions, cell);
        lemma_last_writer(reordered, cell);
        let i = last_writer(transitions, cell);
        let k = last_writer(reordered, cell);
        if i >= 0 {
            assert(transitions.contains(transitions[i]));
            assert(transitions.to_multiset().count(transitions[i]) > 0);
            assert(reordered.contains(transitions[i]));
            let k2 = choose|k2: int| 0 <= k2 < reordered.len() && reordered[k2] == transitions[i];
            assert(reordered[k2].cell() == cell);
            assert(writes(reordered, cell));
        }
        if k >= 0 {
            assert(reordered.contains(reordered[k]));
            assert(reordered.to_multiset().count(reordered[k]) > 0);
            assert(transitions.contains(reordered[k]));
            let i2 = choose|i2: int|
                0 <= i2 < transitions.len() && transitions[i2] == reordered[k];
            assert(transitions[i2].cell() == cell);
            assert(writes(transitions, cell));
            if i2 < i {
                assert(transitions[i2].cell() != transitions[i].cell());
            }
            assert(i2 == i);
        }
    }
    assert(left =~= right);
}

/// Two batches of transitions that have no cell in common can be written in
/// either order.
pub proof fn lemma_disjoint_batches_commute(
    table: Table,
    a: Seq<Transition>,
    b: Seq<Transition>,
)
    requires
        forall|cell: (int, int)| !(writes(a, cell) && writes(b, cell)),
    ensures
        apply_all(apply_all(table, a), b) == apply_all(apply_all(table, b), a),
{
    let left = apply_all(apply_all(table, a), b);
    let right = apply_all(apply_all(table, b), a);
    assert forall|cell: (int, int)|
        (#[trigger] left.dom().contains(cell) <==> right.dom().contains(cell)) && left[cell]
            == right[cell] by {
        lemma_apply_all_cell(table, a, cell);
        lemma_apply_all_cell(table, b, cell);
        lemma_apply_all_cell(apply_all(table, a), b, cell);
        lemma_apply_all_cell(apply_all(table, b), a, cell);
        lemma_last_writer(a, cell);
        lemma_last_writer(b, cell);
    }
    assert(left =~= right);
}

/// Two tables compiled from the same list of transitions answer every query
/// alike.
pub proof fn lemma_compile_deterministic<const STATE_COUNT: usize, const EVENT_COUNT: usize>(
    one: FSM<STATE_COUNT, EVENT_COUNT>,
    other: FSM<STATE_COUNT, EVENT_COUNT>,
    transitions: Seq<Transition>,
)
    requires
        one@ == compiled(transitions, STATE_COUNT as int, EVENT_COUNT as int),
        other@ == compiled(transitions, STATE_COUNT as int, EVENT_COUNT as int),
    ensures
        one@ == other@,
        forall|state: int, event: int| one@[(event, state)] == other@[(event, state)],
{
}

} // verus!
