use vstd::prelude::*;
use crate::model::Table;
use crate::table::FSM;

verus! {

/// The character for a single decimal digit.
pub open spec fn digit(d: int) -> char {
    if d == 0 {
        '0'
    } else if d == 1 {
        '1'
    } else if d == 2 {
        '2'
    } else if d == 3 {
        '3'
    } else if d == 4 {
        '4'
    } else if d == 5 {
        '5'
    } else if d == 6 {
        '6'
    } else if d == 7 {
        '7'
    } else if d == 8 {
        '8'
    } else {
        '9'
    }
}

/// A number in decimal digits, without leading zeros.
pub open spec fn decimal(n: nat) -> Seq<char>
    decreases n,
{
    if n < 10 {
        seq![digit(n as int)]
    } else {
        decimal(n / 10).push(digit((n % 10) as int))
    }
}

/// A number in decimal digits, with blanks in front of it where it has
/// fewer than `width` digits.
pub open spec fn padded(n: nat, width: nat) -> Seq<char> {
    let digits = decimal(n);
    if digits.len() >= width {
        digits
    } else {
        Seq::new((width - digits.len()) as nat, |i: int| ' ') + digits
    }
}

/// The labels of the first `states` states, one column each.
pub open spec fn header_labels(states: nat) -> Seq<char>
    decreases states,
{
    if states == 0 {
        Seq::empty()
    } else {
        header_labels((states - 1) as nat) + "State "@ + decimal((states - 1) as nat) + "\t\t"@
    }
}

/// Where `event` leads from each of the first `states` states, one column
/// each.
pub open spec fn row_cells(table: Table, event: int, states: nat) -> Seq<char>
    decreases states,
{
    if states == 0 {
        Seq::empty()
    } else {
        row_cells(table, event, (states - 1) as nat) + "Goto: "@ + decimal(
            table[(event, states - 1)] as nat,
        ) + "\t\t"@
    }
}

/// The line of one event: its number, then where it leads from each state.
pub open spec fn row(table: Table, event: int, states: nat) -> Seq<char> {
    "Event "@ + padded(event as nat, 3) + ":\t"@ + row_cells(table, event, states) + "\n"@
}

/// The lines of the first `events` events.
pub open spec fn rows(table: Table, states: nat, events: nat) -> Seq<char>
    decreases events,
{
    if events == 0 {
        Seq::empty()
    } else {
        rows(table, states, (events - 1) as nat) + row(table, events - 1, states)
    }
}

/// The whole table as text: a line of state labels, then one line for each
/// event.
pub open spec fn rendering(table: Table, states: nat, events: nat) -> Seq<char> {
    "\t\t"@ + header_labels(states) + "\n"@ + rows(table, states, events)
}

fn push_digit(text: &mut String, d: usize)
    requires
        d < 10,
    ensures
        final(text)@ == old(text)@.push(digit(d as int)),
{
    proof {
        reveal_strlit("0");
        reveal_strlit("1");
        reveal_strlit("2");
        reveal_strlit("3");
        reveal_strlit("4");
        reveal_strlit("5");
        reveal_strlit("6");
        reveal_strlit("7");
        reveal_strlit("8");
        reveal_strlit("9");
    }
    let glyph = if d == 0 {
        "0"
    } else if d == 1 {
        "1"
    } else if d == 2 {
        "2"
    } else if d == 3 {
        "3"
    } else if d == 4 {
        "4"
    } else if d == 5 {
        "5"
    } else if d == 6 {
        "6"
    } else if d == 7 {
        "7"
    } else if d == 8 {
        "8"
    } else {
        "9"
    };
    assert(glyph@ =~= seq![digit(d as int)]);
    text.append(glyph);
    assert(text@ =~= old(text)@.push(digit(d as int)));
}

fn push_decimal(text: &mut String, n: usize)
    ensures
        final(text)@ == old(text)@ + decimal(n as nat),
    decreases n,
{
    if n >= 10 {
        push_decimal(text, n / 10);
    }
    push_digit(text, n % 10);
    assert(text@ =~= old(text)@ + decimal(n as nat));
}

fn push_padded(text: &mut String, n: usize)
    ensures
        final(text)@ == old(text)@ + padded(n as nat, 3),
{
    proof {
        reveal_strlit(" ");
        reveal_strlit("  ");
        lemma_decimal_len(n as nat);
    }
    if n < 10 {
        text.append("  ");
    } else if n < 100 {
        text.append(" ");
    }
    push_decimal(text, n);
    assert(text@ =~= old(text)@ + padded(n as nat, 3));
}

/// How many digits a number has, as far as padding to three columns needs
/// it.
proof fn lemma_decimal_len(n: nat)
    ensures
        n < 10 ==> decimal(n).len() == 1,
        10 <= n < 100 ==> decimal(n).len() == 2,
        100 <= n ==> decimal(n).len() >= 3,
    decreases n,
{
    if n >= 10 {
        lemma_decimal_len(n / 10);
    }
}

impl<const STATE_COUNT: usize, const EVENT_COUNT: usize> FSM<STATE_COUNT, EVENT_COUNT> {
    /// The table as text, for a person to read: a first line with a label
    /// for each state, then a line for each event that says where the event
    /// leads from each state.
    pub fn dump(&self) -> (text: String)
        ensures
            text@ == rendering(self@, STATE_COUNT as nat, EVENT_COUNT as nat),
    {
        let mut text = String::new();
        text.append("\t\t");
        let mut state: usize = 0;
        while state < STATE_COUNT
            invariant
                state <= STATE_COUNT,
                text@ == "\t\t"@ + header_labels(state as nat),
            decreases STATE_COUNT - state,
        {
            text.append("State ");
            push_decimal(&mut text, state);
            text.append("\t\t");
            state += 1;
            assert(text@ =~= "\t\t"@ + header_labels(state as nat));
        }
        text.append("\n");
        let ghost head = text@;
        let mut event: usize = 0;
        while event < EVENT_COUNT
            invariant
                event <= EVENT_COUNT,
                head == "\t\t"@ + header_labels(STATE_COUNT as nat) + "\n"@,
                text@ == head + rows(self@, STATE_COUNT as nat, event as nat),
            decreases EVENT_COUNT - event,
        {
            let ghost before = text@;
            text.append("Event ");
            push_padded(&mut text, event);
            text.append(":\t");
            let ghost lead = text@;
            let mut state: usize = 0;
            while state < STATE_COUNT
                invariant
                    state <= STATE_COUNT,
                    event < EVENT_COUNT,
                    text@ == lead + row_cells(self@, event as int, state as nat),
                decreases STATE_COUNT - state,
            {
                let next = self.get_next_state(state, event);
                text.append("Goto: ");
                push_decimal(&mut text, next);
                text.append("\t\t");
                state += 1;
                assert(text@ =~= lead + row_cells(self@, event as int, state as nat));
            }
            text.append("\n");
            event += 1;
            assert(text@ =~= before + row(self@, event - 1, STATE_COUNT as nat));
            assert(text@ =~= head + rows(self@, STATE_COUNT as nat, event as nat));
        }
        text
    }
}

} // verus!
