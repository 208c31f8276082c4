//! The execution engine: it owns the table, the current state, the active
//! signals and the host's store, and runs one resolution cycle for every batch
//! of events that is posted.

use vstd::prelude::*;
use crate::dispatch::{updated, Dispatch, SignalUpdate};
use crate::model::{first_match, is_first_match, Outcome, Snapshot};
use crate::signal::{all_below, below, lemma_tag_set_push, tag_set, SignalSet};
use crate::table::{
    input_views, transition_views, ConfigurationError, InputAction, StateTable, TableView,
    Transition,
};

verus! {

/// The first transition of `transitions` whose condition is satisfied by the
/// active signals, if there is one.
pub fn select_transition(
    transitions: &Vec<Transition>,
    events: &SignalSet,
    statics: &SignalSet,
) -> (chosen: Option<usize>)
    ensures
        match chosen {
            Some(i) => first_match(transition_views(transitions@), events@, statics@) == Some(
                i as int,
            ),
            None => first_match(transition_views(transitions@), events@, statics@).is_none(),
        },
{
    let ghost views = transition_views(transitions@);
    let mut i: usize = 0;
    while i < transitions.len()
        invariant
            i <= transitions.len(),
            views == transition_views(transitions@),
            forall|j: int| 0 <= j < i ==> !(#[trigger] views[j]).condition.holds(events@, statics@),
        decreases transitions.len() - i,
    {
        assert(views[i as int] == transitions@[i as int]@);
        if transitions[i].condition.satisfied(events, statics) {
            assert(is_first_match(views, events@, statics@, i as int));
            return Some(i);
        }
        i = i + 1;
    }
    None
}

/// Applies what a dispatched action asked of the static signals.
pub fn apply_update(statics: &mut SignalSet, update: SignalUpdate)
    ensures
        final(statics).capacity() == old(statics).capacity(),
        final(statics)@ == updated(old(statics)@, update, old(statics).capacity()),
{
    match update {
        SignalUpdate::Keep => {},
        SignalUpdate::Raise(tag) => {
            let _ = statics.insert(tag);
        },
        SignalUpdate::Lower(tag) => {
            statics.remove(tag);
        },
    }
}

/// Dispatches every action of `actions` in order.
fn run_actions<D: Dispatch>(
    store: &mut D,
    statics: &mut SignalSet,
    actions: &Vec<u64>,
    Ghost(state): Ghost<nat>,
)
    ensures
        final(statics).capacity() == old(statics).capacity(),
        (Snapshot::<D> { state, statics: final(statics)@, store: final(store)@ }) == (Snapshot::<D> {
            state,
            statics: old(statics)@,
            store: old(store)@,
        }).dispatched_all(actions@, old(statics).capacity()),
{
    let ghost start = Snapshot::<D> { state, statics: statics@, store: store@ };
    let ghost capacity = statics.capacity();
    let mut i: usize = 0;
    while i < actions.len()
        invariant
            i <= actions.len(),
            statics.capacity() == capacity,
            (Snapshot::<D> { state, statics: statics@, store: store@ }) == start.dispatched_all(
                actions@.take(i as int),
                capacity,
            ),
        decreases actions.len() - i,
    {
        let update = store.dispatch(actions[i]);
        apply_update(statics, update);
        proof {
            let next = actions@.take(i + 1);
            assert(next.drop_last() == actions@.take(i as int));
            assert(next.last() == actions@[i as int]);
        }
        i = i + 1;
    }
    assert(actions@.take(actions@.len() as int) == actions@);
}

/// Looks at every input action of `inputs` once, in order, and dispatches the
/// action of each one whose condition is satisfied.
fn run_inputs<D: Dispatch>(
    store: &mut D,
    statics: &mut SignalSet,
    events: &SignalSet,
    inputs: &Vec<InputAction>,
    Ghost(state): Ghost<nat>,
)
    ensures
        final(statics).capacity() == old(statics).capacity(),
        (Snapshot::<D> { state, statics: final(statics)@, store: final(store)@ }) == (Snapshot::<D> {
            state,
            statics: old(statics)@,
            store: old(store)@,
        }).inputs_run(input_views(inputs@), events@, old(statics).capacity()),
{
    let ghost start = Snapshot::<D> { state, statics: statics@, store: store@ };
    let ghost capacity = statics.capacity();
    let ghost views = input_views(inputs@);
    let mut i: usize = 0;
    while i < inputs.len()
        invariant
            i <= inputs.len(),
            views == input_views(inputs@),
            statics.capacity() == capacity,
            (Snapshot::<D> { state, statics: statics@, store: store@ }) == start.inputs_run(
                views.take(i as int),
                events@,
                capacity,
            ),
        decreases inputs.len() - i,
    {
        proof {
            let next = views.take(i + 1);
            assert(next.drop_last() == views.take(i as int));
            assert(next.last() == inputs@[i as int]@);
        }
        if inputs[i].condition.satisfied(events, statics) {
            let update = store.dispatch(inputs[i].action);
            apply_update(statics, update);
        }
        i = i + 1;
    }
    assert(views.take(views.len() as int) == views);
}

/// Takes transition `t` out of state `*current`: dispatches its actions, then
/// the exit actions of the state that is left, switches, and dispatches the
/// entry actions of the state that is entered.
fn take_transition<D: Dispatch>(
    table: &StateTable,
    current: &mut usize,
    statics: &mut SignalSet,
    store: &mut D,
    t: &Transition,
)
    requires
        *old(current) < table@.states.len(),
        t.target < table@.states.len(),
        old(statics).capacity() == table@.n_statics,
    ensures
        *final(current) == t.target,
        final(statics).capacity() == old(statics).capacity(),
        (Snapshot::<D> { state: *final(current) as nat, statics: final(statics)@, store: final(store)@ })
            == (Snapshot::<D> {
            state: *old(current) as nat,
            statics: old(statics)@,
            store: old(store)@,
        }).taken(table@, t@),
{
    let left = table.get_state_spec(*current);
    run_actions(store, statics, &t.actions, Ghost(*current as nat));
    run_actions(store, statics, &left.exit_actions, Ghost(*current as nat));
    *current = t.target;
    let entered = table.get_state_spec(*current);
    run_actions(store, statics, &entered.entry_actions, Ghost(*current as nat));
}

/// Runs one resolution cycle on the parts of an engine: the input actions of
/// the current state, the global input actions, then transitions until none
/// is enabled or the table's limit is reached, and clears the events. Reports
/// whether the cascade came to rest.
fn resolve<D: Dispatch>(
    table: &StateTable,
    current: &mut usize,
    events: &mut SignalSet,
    statics: &mut SignalSet,
    store: &mut D,
) -> (settled: bool)
    requires
        *old(current) < table@.states.len(),
        old(statics).capacity() == table@.n_statics,
    ensures
        *final(current) < table@.states.len(),
        final(statics).capacity() == old(statics).capacity(),
        final(events).capacity() == old(events).capacity(),
        final(events)@ == Set::<nat>::empty(),
        (Outcome::<D> {
            snapshot: Snapshot::<D> {
                state: *final(current) as nat,
                statics: final(statics)@,
                store: final(store)@,
            },
            settled,
        }) == (Snapshot::<D> {
            state: *old(current) as nat,
            statics: old(statics)@,
            store: old(store)@,
        }).cycle(table@, old(events)@),
{
    proof {
        use_type_invariant(table);
    }
    let ghost start = Snapshot::<D> { state: *current as nat, statics: statics@, store: store@ };
    let spec = table.get_state_spec(*current);
    run_inputs(store, statics, events, &spec.input_actions, Ghost(*current as nat));
    run_inputs(store, statics, events, table.get_global_input_actions(), Ghost(*current as nat));
    let ghost goal = start.cycle(table@, events@);
    let ghost capacity = events.capacity();
    let mut fuel: usize = table.cascade_limit();
    let mut settled: bool = false;
    loop
        invariant_except_break
            (Snapshot::<D> { state: *current as nat, statics: statics@, store: store@ }).cascade(
                table@,
                events@,
                fuel as nat,
            ) == goal,
        invariant
            table@.valid(),
            *current < table@.states.len(),
            statics.capacity() == table@.n_statics,
            events.capacity() == capacity,
        ensures
            (Outcome::<D> {
                snapshot: Snapshot::<D> { state: *current as nat, statics: statics@, store: store@ },
                settled,
            }) == goal,
        decreases fuel,
    {
        let spec = table.get_state_spec(*current);
        match select_transition(&spec.transitions, events, statics) {
            None => {
                settled = true;
                break ;
            },
            Some(i) => {
                if fuel == 0 {
                    settled = false;
                    break ;
                }
                let t = &spec.transitions[i];
                assert(table@.states[*current as int].transitions[i as int] == t@);
                take_transition(table, current, statics, store, t);
                events.clear();
                fuel = fuel - 1;
            },
        }
    }
    events.clear();
    settled
}

/// Why a posted batch did not end in a settled engine.
#[derive(Debug, Clone, Copy, PartialEq, Eq, Structural)]
pub enum CycleError {
    /// The batch names a tag outside the event vocabulary. Nothing was run.
    UnknownEvent,
    /// The cycle was stopped because it would have taken more transitions
    /// than the table's cascade limit allows.
    RunawayCascade,
}

/// A running state machine.
#[derive(Debug)]
pub struct Engine<D: Dispatch> {
    table: StateTable,
    current: usize,
    events: SignalSet,
    statics: SignalSet,
    store: D,
}

impl<D: Dispatch> Engine<D> {
    /// What holds of an engine between two cycles: the current state is a
    /// state of the table, the two signal sets range over the table's
    /// vocabularies, and no event is active.
    pub closed spec fn wf(&self) -> bool {
        &&& self.current < self.table@.states.len()
        &&& self.events@ == Set::<nat>::empty()
        &&& self.events.capacity() == self.table@.n_events
        &&& self.statics.capacity() == self.table@.n_statics
    }

    /// The table that the engine runs.
    pub closed spec fn table(&self) -> TableView {
        self.table@
    }

    /// What can be observed of the engine: the current state, the active
    /// static signals and the store.
    pub closed spec fn snapshot(&self) -> Snapshot<D> {
        Snapshot::<D> { state: self.current as nat, statics: self.statics@, store: self.store@ }
    }

    /// The events that are active.
    pub closed spec fn active_events(&self) -> Set<nat> {
        self.events@
    }

    /// Starts an engine on `table` in `initial_state`, with no signal active,
    /// and runs one resolution cycle, so that whatever the initial state
    /// allows without any event has happened when the engine is handed out.
    ///
    /// Fails if `initial_state` is not a state of the table, or if that first
    /// cycle does not settle within the table's cascade limit.
    pub fn initialize(table: StateTable, initial_state: usize, store: D) -> (started: Result<
        Engine<D>,
        ConfigurationError,
    >)
        ensures
            initial_state >= table@.states.len() ==> started == Err::<Engine<D>, ConfigurationError>(
                ConfigurationError::InitialStateMissing,
            ),
            initial_state < table@.states.len() ==> ({
                let first = (Snapshot::<D> {
                    state: initial_state as nat,
                    statics: Set::<nat>::empty(),
                    store: store@,
                }).cycle(table@, Set::<nat>::empty());
                match started {
                    Ok(engine) => {
                        &&& first.settled
                        &&& engine.wf()
                        &&& engine.table() == table@
                        &&& engine.snapshot() == first.snapshot
                        &&& engine.active_events() == Set::<nat>::empty()
                    },
                    Err(e) => !first.settled && e == ConfigurationError::RunawayCascade,
                }
            }),
    {
        if initial_state >= table.len() {
            return Err(ConfigurationError::InitialStateMissing);
        }
        let events = SignalSet::new(table.n_events());
        let statics = SignalSet::new(table.n_statics());
        let mut engine = Engine { table, current: initial_state, events, statics, store };
        let settled = resolve(
            &engine.table,
            &mut engine.current,
            &mut engine.events,
            &mut engine.statics,
            &mut engine.store,
        );
        if settled {
            Ok(engine)
        } else {
            Err(ConfigurationError::RunawayCascade)
        }
    }

    /// Activates the events listed in `events` and runs one resolution cycle,
    /// at the end of which no event is active. Order and repetition in the
    /// batch have no meaning.
    ///
    /// A batch that names a tag outside the event vocabulary is refused and
    /// leaves the engine as it was. A cycle that would take more transitions
    /// than the table's cascade limit is cut short: the engine stays where the
    /// cascade was stopped, with every action dispatched so far in effect, and
    /// the events are cleared all the same.
    pub fn post_events(&mut self, events: &Vec<usize>) -> (done: Result<(), CycleError>)
        requires
            old(self).wf(),
        ensures
            final(self).wf(),
            final(self).table() == old(self).table(),
            !below(tag_set(events@), old(self).table().n_events) ==> {
                &&& done == Err::<(), CycleError>(CycleError::UnknownEvent)
                &&& final(self).snapshot() == old(self).snapshot()
                &&& final(self).active_events() == old(self).active_events()
            },
            below(tag_set(events@), old(self).table().n_events) ==> ({
                let outcome = old(self).snapshot().cycle(old(self).table(), tag_set(events@));
                &&& final(self).snapshot() == outcome.snapshot
                &&& final(self).active_events() == Set::<nat>::empty()
                &&& outcome.settled ==> done == Ok::<(), CycleError>(())
                &&& !outcome.settled ==> done == Err::<(), CycleError>(CycleError::RunawayCascade)
            }),
    {
        if !all_below(events, self.table.n_events()) {
            return Err(CycleError::UnknownEvent);
        }
        let mut i: usize = 0;
        while i < events.len()
            invariant
                i <= events.len(),
                below(tag_set(events@), self.events.capacity()),
                self.events.capacity() == old(self).events.capacity(),
                self.events@ == old(self).events@.union(tag_set(events@.take(i as int))),
                self.table == old(self).table,
                self.current == old(self).current,
                self.statics == old(self).statics,
                self.store@ == old(self).store@,
            decreases events.len() - i,
        {
            assert(tag_set(events@).contains(events@[i as int] as nat));
            let _ = self.events.insert(events[i]);
            proof {
                let before = events@.take(i as int);
                assert(events@.take(i + 1) == before.push(events@[i as int]));
                lemma_tag_set_push(before, events@[i as int]);
                assert(self.events@ =~= old(self).events@.union(tag_set(events@.take(i + 1))));
            }
            i = i + 1;
        }
        assert(events@.take(events@.len() as int) == events@);
        assert(self.events@ =~= tag_set(events@));
        let settled = resolve(
            &self.table,
            &mut self.current,
            &mut self.events,
            &mut self.statics,
            &mut self.store,
        );
        if settled {
            Ok(())
        } else {
            Err(CycleError::RunawayCascade)
        }
    }

    /// Observes the store through `token`.
    pub fn read(&self, token: u64) -> (value: u64)
        ensures
            value == D::shown(self.snapshot().store, token),
    {
        self.store.read(token)
    }

    /// The current state.
    pub fn current_state(&self) -> (state: usize)
        ensures
            state == self.snapshot().state,
    {
        self.current
    }

    /// Between two cycles the current state is a state of the table, and no
    /// event is active.
    pub proof fn lemma_at_rest(&self)
        requires
            self.wf(),
        ensures
            self.snapshot().state < self.table().states.len(),
            self.active_events() == Set::<nat>::empty(),
    {
    }

    /// The host's store, to look at.
    pub fn store(&self) -> (store: &D)
        ensures
            store@ == self.snapshot().store,
    {
        &self.store
    }

    /// Whether the static signal `tag` is active.
    pub fn is_active(&self, tag: usize) -> (active: bool)
        ensures
            active == self.snapshot().statics.contains(tag as nat),
    {
        self.statics.contains(tag)
    }

    /// Whether no event is active.
    pub fn is_idle(&self) -> (idle: bool)
        ensures
            idle == (self.active_events() == Set::<nat>::empty()),
    {
        self.events.is_empty()
    }
}

} // verus!
