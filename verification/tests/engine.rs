use vfsm::dispatch::SignalUpdate;
use vfsm::engine::{apply_update, select_transition, CycleError, Engine};
use vfsm::recorder::{Recorder, Rule};
use vfsm::signal::{Condition, SignalSet};
use vfsm::table::{ConfigurationError, InputAction, StateSpec, StateTable, Transition};

fn on(events: &[usize], statics: &[usize]) -> Condition {
    Condition::All { events: events.to_vec(), statics: statics.to_vec() }
}

fn go(condition: Condition, target: usize, actions: &[u64]) -> Transition {
    Transition { condition, target, actions: actions.to_vec() }
}

fn state(name: &str, transitions: Vec<Transition>) -> StateSpec {
    StateSpec {
        name: name.to_string(),
        entry_actions: vec![],
        exit_actions: vec![],
        input_actions: vec![],
        transitions,
    }
}

fn full_state(
    name: &str,
    entry: &[u64],
    exit: &[u64],
    inputs: Vec<InputAction>,
    transitions: Vec<Transition>,
) -> StateSpec {
    StateSpec {
        name: name.to_string(),
        entry_actions: entry.to_vec(),
        exit_actions: exit.to_vec(),
        input_actions: inputs,
        transitions,
    }
}

fn input(condition: Condition, action: u64) -> InputAction {
    InputAction { condition, action }
}

fn start(table: StateTable, rules: Vec<Rule>) -> Engine<Recorder> {
    Engine::initialize(table, 0, Recorder::new(rules)).unwrap()
}

fn log_of(engine: &Engine<Recorder>) -> Vec<u64> {
    engine.store().log().clone()
}

#[test]
fn table_with_unlisted_target_is_refused() {
    let states = vec![state("a", vec![go(Condition::Always, 1, &[])])];
    let built = StateTable::new(1, 0, states, vec![], 8);
    assert_eq!(built.err(), Some(ConfigurationError::MissingState));
}

#[test]
fn table_with_undeclared_event_is_refused() {
    let states = vec![state("a", vec![go(on(&[2], &[]), 0, &[])])];
    let built = StateTable::new(2, 0, states, vec![], 8);
    assert_eq!(built.err(), Some(ConfigurationError::UndeclaredSignal));
}

#[test]
fn table_with_undeclared_static_signal_is_refused() {
    let states = vec![state("a", vec![go(on(&[], &[0]), 0, &[])])];
    let built = StateTable::new(2, 0, states, vec![], 8);
    assert_eq!(built.err(), Some(ConfigurationError::UndeclaredSignal));
}

#[test]
fn undeclared_tag_in_an_input_action_is_refused() {
    let states = vec![full_state("a", &[], &[], vec![input(on(&[5], &[]), 1)], vec![])];
    let built = StateTable::new(5, 5, states, vec![], 8);
    assert_eq!(built.err(), Some(ConfigurationError::UndeclaredSignal));
}

#[test]
fn undeclared_tag_in_a_global_input_action_is_refused() {
    let states = vec![state("a", vec![])];
    let built = StateTable::new(1, 1, states, vec![input(on(&[0], &[1]), 1)], 8);
    assert_eq!(built.err(), Some(ConfigurationError::UndeclaredSignal));
}

#[test]
fn missing_state_is_reported_before_undeclared_signal() {
    let states = vec![state("a", vec![go(on(&[9], &[]), 0, &[]), go(Condition::Always, 3, &[])])];
    let built = StateTable::new(1, 0, states, vec![], 8);
    assert_eq!(built.err(), Some(ConfigurationError::MissingState));
}

#[test]
fn well_built_table_is_accepted() {
    let states = vec![
        state("a", vec![go(on(&[0, 1], &[0]), 1, &[7])]),
        state("b", vec![go(Condition::Always, 0, &[])]),
    ];
    let table = StateTable::new(2, 1, states, vec![input(on(&[1], &[]), 3)], 5).unwrap();
    assert_eq!(table.len(), 2);
    assert_eq!(table.n_events(), 2);
    assert_eq!(table.n_statics(), 1);
    assert_eq!(table.cascade_limit(), 5);
    assert_eq!(table.get_state_spec(0).name, "a");
    assert_eq!(table.get_state_spec(1).name, "b");
    assert_eq!(table.get_state_spec(0).transitions[0].actions, vec![7]);
    assert_eq!(table.get_global_input_actions()[0].action, 3);
}

#[test]
fn initial_state_outside_the_table_is_refused() {
    let table = StateTable::new(1, 0, vec![state("a", vec![])], vec![], 8).unwrap();
    let started = Engine::initialize(table, 1, Recorder::new(vec![]));
    assert_eq!(started.err(), Some(ConfigurationError::InitialStateMissing));
}

#[test]
fn empty_table_has_no_initial_state() {
    let table = StateTable::new(0, 0, vec![], vec![], 8).unwrap();
    let started = Engine::initialize(table, 0, Recorder::new(vec![]));
    assert_eq!(started.err(), Some(ConfigurationError::InitialStateMissing));
}

#[test]
fn wildcard_loop_from_the_initial_state_is_refused() {
    let states = vec![state("a", vec![go(Condition::Always, 0, &[])])];
    let table = StateTable::new(0, 0, states, vec![], 8).unwrap();
    let started = Engine::initialize(table, 0, Recorder::new(vec![]));
    assert_eq!(started.err(), Some(ConfigurationError::RunawayCascade));
}

#[test]
fn initialize_takes_the_wildcard_out_of_the_initial_state() {
    let states = vec![
        full_state("init", &[], &[10], vec![], vec![go(Condition::Always, 1, &[20])]),
        full_state("ready", &[30], &[], vec![], vec![go(on(&[0], &[]), 0, &[])]),
    ];
    let table = StateTable::new(1, 0, states, vec![], 8).unwrap();
    let engine = start(table, vec![]);
    assert_eq!(engine.current_state(), 1);
    assert!(engine.is_idle());
    assert_eq!(log_of(&engine), vec![20, 10, 30]);
}

#[test]
fn initialize_without_enabled_transition_stays() {
    let states = vec![state("a", vec![go(on(&[0], &[]), 0, &[1])])];
    let table = StateTable::new(1, 0, states, vec![], 8).unwrap();
    let engine = start(table, vec![]);
    assert_eq!(engine.current_state(), 0);
    assert_eq!(log_of(&engine), Vec::<u64>::new());
}

#[test]
fn actions_run_transition_then_exit_then_entry() {
    let states = vec![
        full_state("a", &[1], &[2, 3], vec![], vec![go(on(&[0], &[]), 1, &[4, 5])]),
        full_state("b", &[6, 7], &[8], vec![], vec![]),
    ];
    let table = StateTable::new(1, 0, states, vec![], 8).unwrap();
    let mut engine = start(table, vec![]);
    assert_eq!(log_of(&engine), Vec::<u64>::new());
    assert_eq!(engine.post_events(&vec![0]), Ok(()));
    assert_eq!(engine.current_state(), 1);
    assert_eq!(log_of(&engine), vec![4, 5, 2, 3, 6, 7]);
}

#[test]
fn input_actions_run_before_transitions_and_globals_after_the_state() {
    let states = vec![
        full_state(
            "a",
            &[],
            &[30],
            vec![input(on(&[0], &[]), 10), input(on(&[1], &[]), 11), input(Condition::Always, 12)],
            vec![go(on(&[0], &[]), 1, &[20])],
        ),
        full_state("b", &[40], &[], vec![input(Condition::Always, 50)], vec![]),
    ];
    let globals = vec![input(on(&[0], &[]), 60), input(on(&[0, 1], &[]), 61)];
    let table = StateTable::new(2, 0, states, globals, 8).unwrap();
    let mut engine = start(table, vec![]);
    assert_eq!(log_of(&engine), vec![12]);
    assert_eq!(engine.post_events(&vec![0]), Ok(()));
    assert_eq!(log_of(&engine), vec![12, 10, 12, 60, 20, 30, 40]);
    assert_eq!(engine.current_state(), 1);
}

#[test]
fn cycle_without_satisfied_transition_looks_at_each_input_once() {
    let states = vec![full_state(
        "a",
        &[],
        &[],
        vec![input(on(&[0], &[]), 1), input(on(&[0], &[]), 1), input(on(&[1], &[]), 2)],
        vec![go(on(&[1], &[]), 0, &[9])],
    )];
    let globals = vec![input(on(&[0], &[]), 3)];
    let table = StateTable::new(2, 0, states, globals, 8).unwrap();
    let mut engine = start(table, vec![]);
    assert_eq!(engine.post_events(&vec![0]), Ok(()));
    assert_eq!(engine.current_state(), 0);
    assert_eq!(log_of(&engine), vec![1, 1, 3]);
    assert_eq!(engine.read(1), 2);
    assert_eq!(engine.read(3), 1);
    assert_eq!(engine.read(9), 0);
    assert!(engine.is_idle());
}

#[test]
fn first_listed_transition_wins() {
    let states = vec![
        state("a", vec![go(on(&[0], &[]), 1, &[1]), go(on(&[0], &[]), 2, &[2])]),
        state("b", vec![]),
        state("c", vec![]),
    ];
    let table = StateTable::new(2, 0, states, vec![], 8).unwrap();
    let mut engine = start(table, vec![]);
    assert_eq!(engine.post_events(&vec![0]), Ok(()));
    assert_eq!(engine.current_state(), 1);
    assert_eq!(log_of(&engine), vec![1]);
}

#[test]
fn first_listed_transition_wins_among_overlapping_conditions() {
    let table = || {
        let states = vec![
            state(
                "a",
                vec![
                    go(on(&[0, 1], &[]), 1, &[]),
                    go(on(&[0], &[]), 2, &[]),
                    go(on(&[1], &[]), 3, &[]),
                ],
            ),
            state("b", vec![]),
            state("c", vec![]),
            state("d", vec![]),
        ];
        StateTable::new(2, 0, states, vec![], 8).unwrap()
    };
    let mut engine = start(table(), vec![]);
    assert_eq!(engine.post_events(&vec![1, 0]), Ok(()));
    assert_eq!(engine.current_state(), 1);

    let mut engine = start(table(), vec![]);
    assert_eq!(engine.post_events(&vec![0]), Ok(()));
    assert_eq!(engine.current_state(), 2);

    let mut engine = start(table(), vec![]);
    assert_eq!(engine.post_events(&vec![1]), Ok(()));
    assert_eq!(engine.current_state(), 3);
}

#[test]
fn wildcard_listed_first_hides_what_follows() {
    let states = vec![
        state("idle", vec![go(on(&[0], &[]), 1, &[])]),
        state("a", vec![go(Condition::Always, 2, &[1]), go(on(&[0], &[]), 3, &[2])]),
        state("b", vec![]),
        state("c", vec![]),
    ];
    let table = StateTable::new(1, 0, states, vec![], 8).unwrap();
    let mut engine = start(table, vec![]);
    assert_eq!(engine.post_events(&vec![0]), Ok(()));
    assert_eq!(engine.current_state(), 2);
    assert_eq!(log_of(&engine), vec![1]);
}

#[test]
fn wildcard_chain_resolves_within_one_call() {
    let states = vec![
        state("idle", vec![go(on(&[0], &[]), 1, &[1])]),
        state("a", vec![go(Condition::Always, 2, &[2])]),
        state("b", vec![go(Condition::Always, 3, &[3])]),
        state("c", vec![go(on(&[1], &[]), 0, &[4])]),
    ];
    let table = StateTable::new(2, 0, states, vec![], 8).unwrap();
    let mut engine = start(table, vec![]);
    assert_eq!(engine.current_state(), 0);
    assert_eq!(engine.post_events(&vec![0]), Ok(()));
    assert_eq!(engine.current_state(), 3);
    assert_eq!(log_of(&engine), vec![1, 2, 3]);
    assert!(engine.is_idle());
    assert_eq!(engine.post_events(&vec![]), Ok(()));
    assert_eq!(engine.current_state(), 3);
    assert_eq!(log_of(&engine), vec![1, 2, 3]);
}

#[test]
fn events_are_spent_on_the_first_transition() {
    let states = vec![
        state("a", vec![go(on(&[0], &[]), 1, &[1])]),
        state("b", vec![go(on(&[0], &[]), 2, &[2])]),
        state("c", vec![]),
    ];
    let table = StateTable::new(1, 0, states, vec![], 8).unwrap();
    let mut engine = start(table, vec![]);
    assert_eq!(engine.post_events(&vec![0]), Ok(()));
    assert_eq!(engine.current_state(), 1);
    assert_eq!(log_of(&engine), vec![1]);
    assert!(engine.is_idle());
    assert_eq!(engine.post_events(&vec![0]), Ok(()));
    assert_eq!(engine.current_state(), 2);
    assert_eq!(log_of(&engine), vec![1, 2]);
}

#[test]
fn event_loop_takes_one_step_per_batch() {
    let states = vec![
        state("a", vec![go(on(&[0], &[]), 1, &[1])]),
        state("b", vec![go(on(&[0], &[]), 0, &[2])]),
    ];
    let table = StateTable::new(1, 0, states, vec![], 3).unwrap();
    let mut engine = start(table, vec![]);
    assert_eq!(engine.post_events(&vec![0]), Ok(()));
    assert_eq!(engine.current_state(), 1);
    assert_eq!(engine.post_events(&vec![0]), Ok(()));
    assert_eq!(engine.current_state(), 0);
    assert_eq!(log_of(&engine), vec![1, 2]);
}

#[test]
fn later_transitions_see_no_event_even_behind_a_wildcard() {
    let states = vec![
        state("idle", vec![go(on(&[0], &[]), 1, &[])]),
        state("a", vec![go(on(&[0], &[]), 3, &[]), go(Condition::Always, 2, &[])]),
        state("b", vec![go(on(&[0], &[]), 3, &[])]),
        state("c", vec![]),
    ];
    let table = StateTable::new(1, 0, states, vec![], 8).unwrap();
    let mut engine = start(table, vec![]);
    assert_eq!(engine.post_events(&vec![0]), Ok(()));
    assert_eq!(engine.current_state(), 2);
    assert!(engine.is_idle());
}

#[test]
fn events_do_not_outlive_their_cycle() {
    let states = vec![
        state("a", vec![go(on(&[0, 1], &[]), 1, &[])]),
        state("b", vec![]),
    ];
    let table = StateTable::new(2, 0, states, vec![], 8).unwrap();
    let mut engine = start(table, vec![]);
    assert_eq!(engine.post_events(&vec![0]), Ok(()));
    assert_eq!(engine.current_state(), 0);
    assert!(engine.is_idle());
    assert_eq!(engine.post_events(&vec![1]), Ok(()));
    assert_eq!(engine.current_state(), 0);
    assert!(engine.is_idle());
    assert_eq!(engine.post_events(&vec![1, 0, 1]), Ok(()));
    assert_eq!(engine.current_state(), 1);
    assert!(engine.is_idle());
}

#[test]
fn unknown_event_is_refused_and_changes_nothing() {
    let states = vec![
        full_state("a", &[], &[], vec![input(Condition::Always, 5)], vec![go(on(&[0], &[]), 1, &[])]),
        state("b", vec![]),
    ];
    let table = StateTable::new(1, 0, states, vec![], 8).unwrap();
    let mut engine = start(table, vec![]);
    assert_eq!(log_of(&engine), vec![5]);
    assert_eq!(engine.post_events(&vec![0, 1]), Err(CycleError::UnknownEvent));
    assert_eq!(engine.current_state(), 0);
    assert_eq!(log_of(&engine), vec![5]);
    assert!(engine.is_idle());
    assert_eq!(engine.post_events(&vec![0]), Ok(()));
    assert_eq!(engine.current_state(), 1);
}

#[test]
fn cascade_is_cut_at_the_limit() {
    let states = vec![
        state("idle", vec![go(on(&[0], &[]), 1, &[1])]),
        state("a", vec![go(Condition::Always, 2, &[2])]),
        state("b", vec![go(Condition::Always, 1, &[3])]),
    ];
    let table = StateTable::new(1, 0, states, vec![], 4).unwrap();
    let mut engine = start(table, vec![]);
    assert_eq!(engine.current_state(), 0);
    assert_eq!(engine.post_events(&vec![0]), Err(CycleError::RunawayCascade));
    assert_eq!(log_of(&engine), vec![1, 2, 3, 2]);
    assert_eq!(engine.current_state(), 2);
    assert!(engine.is_idle());
    assert_eq!(engine.post_events(&vec![]), Err(CycleError::RunawayCascade));
    assert_eq!(log_of(&engine), vec![1, 2, 3, 2, 3, 2, 3, 2]);
    assert_eq!(engine.current_state(), 2);
    assert!(engine.is_idle());
}

#[test]
fn static_signal_loop_is_cut_at_the_limit() {
    let states = vec![
        full_state("a", &[], &[], vec![input(on(&[0], &[]), 100)], vec![go(on(&[], &[0]), 1, &[])]),
        state("b", vec![go(on(&[], &[0]), 0, &[])]),
    ];
    let rules = vec![Rule { action: 100, update: SignalUpdate::Raise(0) }];
    let table = StateTable::new(1, 1, states, vec![], 5).unwrap();
    let mut engine = start(table, rules);
    assert_eq!(engine.post_events(&vec![]), Ok(()));
    assert_eq!(engine.current_state(), 0);
    assert_eq!(engine.post_events(&vec![0]), Err(CycleError::RunawayCascade));
    assert_eq!(engine.current_state(), 1);
    assert!(engine.is_active(0));
    assert!(engine.is_idle());
}

#[test]
fn cascade_of_exactly_the_limit_settles() {
    let chain = |limit: usize| {
        let states = vec![
            state("a", vec![go(on(&[0], &[]), 1, &[])]),
            state("b", vec![go(Condition::Always, 2, &[])]),
            state("c", vec![go(Condition::Always, 3, &[])]),
            state("d", vec![]),
        ];
        StateTable::new(1, 0, states, vec![], limit).unwrap()
    };
    let mut engine = start(chain(3), vec![]);
    assert_eq!(engine.post_events(&vec![0]), Ok(()));
    assert_eq!(engine.current_state(), 3);
    let mut engine = start(chain(2), vec![]);
    assert_eq!(engine.post_events(&vec![0]), Err(CycleError::RunawayCascade));
    assert_eq!(engine.current_state(), 2);
    assert!(engine.is_idle());
}

#[test]
fn limit_of_zero_allows_no_transition() {
    let states = vec![state("a", vec![go(on(&[0], &[]), 0, &[1])])];
    let table = StateTable::new(1, 0, states, vec![], 0).unwrap();
    let mut engine = start(table, vec![]);
    assert_eq!(engine.post_events(&vec![]), Ok(()));
    assert_eq!(engine.post_events(&vec![0]), Err(CycleError::RunawayCascade));
    assert_eq!(log_of(&engine), Vec::<u64>::new());
    assert_eq!(engine.current_state(), 0);
}

#[test]
fn raised_static_signal_stays_until_lowered() {
    let states = vec![full_state(
        "a",
        &[],
        &[],
        vec![
            input(on(&[0], &[]), 100),
            input(on(&[1], &[]), 101),
            input(on(&[], &[0]), 7),
        ],
        vec![],
    )];
    let rules = vec![
        Rule { action: 100, update: SignalUpdate::Raise(0) },
        Rule { action: 101, update: SignalUpdate::Lower(0) },
    ];
    let table = StateTable::new(3, 1, states, vec![], 8).unwrap();
    let mut engine = start(table, rules);
    assert!(!engine.is_active(0));
    assert_eq!(engine.post_events(&vec![2]), Ok(()));
    assert!(!engine.is_active(0));
    assert_eq!(engine.read(7), 0);
    assert_eq!(engine.post_events(&vec![0]), Ok(()));
    assert!(engine.is_active(0));
    assert_eq!(engine.read(7), 1);
    for _ in 0..5 {
        assert_eq!(engine.post_events(&vec![]), Ok(()));
        assert!(engine.is_active(0));
    }
    assert_eq!(engine.post_events(&vec![2]), Ok(()));
    assert!(engine.is_active(0));
    assert_eq!(engine.read(7), 7);
    assert_eq!(engine.post_events(&vec![1]), Ok(()));
    assert!(!engine.is_active(0));
    assert_eq!(engine.read(7), 7);
    assert_eq!(engine.post_events(&vec![]), Ok(()));
    assert!(!engine.is_active(0));
    assert_eq!(engine.read(7), 7);
}

#[test]
fn static_signal_drives_a_cascade() {
    let states = vec![
        state("idle", vec![go(on(&[0], &[]), 1, &[100])]),
        state("armed", vec![go(on(&[], &[0]), 2, &[101])]),
        state("done", vec![go(on(&[], &[0]), 0, &[])]),
    ];
    let rules = vec![
        Rule { action: 100, update: SignalUpdate::Raise(0) },
        Rule { action: 101, update: SignalUpdate::Lower(0) },
    ];
    let table = StateTable::new(1, 1, states, vec![], 8).unwrap();
    let mut engine = start(table, rules);
    assert_eq!(engine.post_events(&vec![0]), Ok(()));
    assert_eq!(engine.current_state(), 2);
    assert!(!engine.is_active(0));
    assert_eq!(log_of(&engine), vec![100, 101]);
}

#[test]
fn condition_may_ask_for_an_event_and_a_static_signal() {
    let states = vec![
        full_state(
            "a",
            &[],
            &[],
            vec![input(on(&[1], &[]), 100)],
            vec![go(on(&[0], &[0]), 1, &[])],
        ),
        state("b", vec![]),
    ];
    let rules = vec![Rule { action: 100, update: SignalUpdate::Raise(0) }];
    let table = StateTable::new(2, 1, states, vec![], 8).unwrap();
    let mut engine = start(table, rules);
    assert_eq!(engine.post_events(&vec![0]), Ok(()));
    assert_eq!(engine.current_state(), 0);
    assert_eq!(engine.post_events(&vec![1]), Ok(()));
    assert_eq!(engine.current_state(), 0);
    assert!(engine.is_active(0));
    assert_eq!(engine.post_events(&vec![0]), Ok(()));
    assert_eq!(engine.current_state(), 1);
}

#[test]
fn raising_a_signal_outside_the_vocabulary_changes_nothing() {
    let states = vec![full_state("a", &[], &[], vec![input(Condition::Always, 100)], vec![])];
    let rules = vec![Rule { action: 100, update: SignalUpdate::Raise(4) }];
    let table = StateTable::new(0, 2, states, vec![], 8).unwrap();
    let engine = start(table, rules);
    assert!(!engine.is_active(4));
    assert!(!engine.is_active(0));
    assert!(!engine.is_active(1));
}

#[test]
fn select_transition_returns_the_first_satisfied() {
    let transitions = vec![
        go(on(&[1], &[]), 0, &[]),
        go(on(&[0], &[1]), 0, &[]),
        go(on(&[0], &[]), 0, &[]),
        go(Condition::Always, 0, &[]),
    ];
    let mut events = SignalSet::new(2);
    let mut statics = SignalSet::new(2);
    assert_eq!(select_transition(&transitions, &events, &statics), Some(3));
    events.insert(0);
    assert_eq!(select_transition(&transitions, &events, &statics), Some(2));
    statics.insert(1);
    assert_eq!(select_transition(&transitions, &events, &statics), Some(1));
    events.insert(1);
    assert_eq!(select_transition(&transitions, &events, &statics), Some(0));
    let none: Vec<Transition> = vec![go(on(&[0], &[0]), 0, &[])];
    assert_eq!(select_transition(&none, &events, &statics), None);
    assert_eq!(select_transition(&vec![], &events, &statics), None);
}

#[test]
fn apply_update_raises_and_lowers() {
    let mut statics = SignalSet::new(3);
    apply_update(&mut statics, SignalUpdate::Raise(1));
    assert!(statics.contains(1));
    apply_update(&mut statics, SignalUpdate::Keep);
    assert!(statics.contains(1));
    apply_update(&mut statics, SignalUpdate::Raise(3));
    assert!(!statics.contains(3));
    apply_update(&mut statics, SignalUpdate::Lower(0));
    assert!(statics.contains(1));
    apply_update(&mut statics, SignalUpdate::Lower(1));
    assert!(statics.is_empty());
}
