use fsm::{Transition, FSM};

#[test]
fn test_turnstile() {
    const STATE_LOCKED: usize = 0;
    const STATE_UNLOCKED: usize = 1;

    const EVENT_PUSH: usize = 0;
    const EVENT_COIN: usize = 1;

    let fsm = FSM::<2, 2>::compile(&[
        Transition::new(STATE_LOCKED, STATE_UNLOCKED, EVENT_COIN),
        Transition::new(STATE_LOCKED, STATE_LOCKED, EVENT_PUSH),
        Transition::new(STATE_UNLOCKED, STATE_UNLOCKED, EVENT_COIN),
        Transition::new(STATE_UNLOCKED, STATE_LOCKED, EVENT_PUSH),
    ]);

    let next = fsm.get_next_state(STATE_LOCKED, EVENT_COIN);
    assert_eq!(next, STATE_UNLOCKED);

    let next = fsm.get_next_state(next, EVENT_COIN);
    assert_eq!(next, STATE_UNLOCKED);

    let next = fsm.get_next_state(next, EVENT_PUSH);
    assert_eq!(next, STATE_LOCKED);

    let next = fsm.get_next_state(next, EVENT_PUSH);
    assert_eq!(next, STATE_LOCKED);

    println!("{}", fsm.dump());
}

#[test]
fn test_coffee_machine() {
    const STATE_OFF: usize = 0;
    const STATE_IDLE: usize = 1;
    const STATE_SELECTED: usize = 2;
    const STATE_STARTED: usize = 3;

    const EVENT_ON_OFF_BTN: usize = 0;
    const EVENT_SELECT_COFFEE_BTN: usize = 1;
    const EVENT_START_STOP_BTN: usize = 2;
    const EVENT_COFFEE_DONE: usize = 3;
    const EVENT_OFF_TIMEOUT: usize = 4;

    let fsm = FSM::<4, 5>::compile(&[
        // off
        Transition::new(STATE_OFF, STATE_IDLE, EVENT_ON_OFF_BTN),
        // idle
        Transition::new(STATE_IDLE, STATE_SELECTED, EVENT_SELECT_COFFEE_BTN),
        Transition::new(STATE_IDLE, STATE_OFF, EVENT_ON_OFF_BTN),
        Transition::new(STATE_IDLE, STATE_OFF, EVENT_OFF_TIMEOUT),
        // selected
        Transition::new(STATE_SELECTED, STATE_OFF, EVENT_ON_OFF_BTN),
        Transition::new(STATE_SELECTED, STATE_OFF, EVENT_OFF_TIMEOUT),
        Transition::new(STATE_SELECTED, STATE_IDLE, EVENT_SELECT_COFFEE_BTN),
        Transition::new(STATE_SELECTED, STATE_STARTED, EVENT_START_STOP_BTN),
        // started
        Transition::new(STATE_STARTED, STATE_OFF, EVENT_ON_OFF_BTN),
        Transition::new(STATE_STARTED, STATE_OFF, EVENT_OFF_TIMEOUT),
        Transition::new(STATE_STARTED, STATE_SELECTED, EVENT_START_STOP_BTN),
        Transition::new(STATE_STARTED, STATE_SELECTED, EVENT_COFFEE_DONE),
    ]);

    let next = fsm.get_next_state(STATE_OFF, EVENT_START_STOP_BTN);
    assert_eq!(next, STATE_OFF);

    let next = fsm.get_next_state(next, EVENT_ON_OFF_BTN);
    assert_eq!(next, STATE_IDLE);

    let next = fsm.get_next_state(next, EVENT_SELECT_COFFEE_BTN);
    assert_eq!(next, STATE_SELECTED);

    let next = fsm.get_next_state(next, EVENT_SELECT_COFFEE_BTN);
    assert_eq!(next, STATE_IDLE);

    let next = fsm.get_next_state(next, EVENT_SELECT_COFFEE_BTN);
    assert_eq!(next, STATE_SELECTED);

    let next = fsm.get_next_state(next, EVENT_START_STOP_BTN);
    assert_eq!(next, STATE_STARTED);

    let next = fsm.get_next_state(next, EVENT_SELECT_COFFEE_BTN);
    assert_eq!(next, STATE_STARTED);
}

#[test]
fn two_state_toggle_follows_its_events() {
    const STATE_ONE: usize = 0;
    const STATE_TWO: usize = 1;

    const EVENT_ONE: usize = 0;
    const EVENT_TWO: usize = 1;

    let fsm = FSM::<2, 2>::compile(&[
        Transition::new(STATE_ONE, STATE_TWO, EVENT_TWO),
        Transition::new(STATE_TWO, STATE_ONE, EVENT_ONE),
    ]);

    let next = fsm.get_next_state(STATE_ONE, EVENT_ONE);
    assert_eq!(next, STATE_ONE);

    let next = fsm.get_next_state(next, EVENT_TWO);
    assert_eq!(next, STATE_TWO);

    let next = fsm.get_next_state(next, EVENT_TWO);
    assert_eq!(next, STATE_TWO);

    let next = fsm.get_next_state(next, EVENT_ONE);
    assert_eq!(next, STATE_ONE);
}

#[test]
fn turnstile_state_sequence() {
    let fsm = FSM::<2, 2>::compile(&[
        Transition::new(0, 1, 1),
        Transition::new(0, 0, 0),
        Transition::new(1, 1, 1),
        Transition::new(1, 0, 0),
    ]);
    let mut current = 0;
    let mut seen = Vec::new();
    for event in [1, 1, 0, 0] {
        current = fsm.get_next_state(current, event);
        seen.push(current);
    }
    assert_eq!(seen, vec![1, 1, 0, 0]);
}
