//! Laws of the resolution cycle.
//!
//! Each proof function states something that holds of every table, every
//! store and every batch of events, over the same model in which the engine's
//! operations are specified.

use vstd::prelude::*;
use crate::dispatch::{Dispatch, SignalUpdate};
use crate::model::{first_match, is_first_match, Outcome, Snapshot};
use crate::signal::ConditionView;
use crate::table::{InputActionView, TableView, TransitionView};

verus! {

/// The first satisfied transition is unique: if `i` is one, it is the choice.
pub proof fn lemma_first_match_is(
    transitions: Seq<TransitionView>,
    events: Set<nat>,
    statics: Set<nat>,
    i: int,
)
    requires
        is_first_match(transitions, events, statics, i),
    ensures
        first_match(transitions, events, statics) == Some(i),
{
    let c = choose|c: int| is_first_match(transitions, events, statics, c);
    if c < i {
        assert(!transitions[c].condition.holds(events, statics));
    }
    if i < c {
        assert(!transitions[i].condition.holds(events, statics));
    }
}

/// Whatever is chosen is the first satisfied transition, and nothing is chosen
/// only if no transition is satisfied.
pub proof fn lemma_first_match_sound(
    transitions: Seq<TransitionView>,
    events: Set<nat>,
    statics: Set<nat>,
)
    ensures
        match first_match(transitions, events, statics) {
            Some(i) => is_first_match(transitions, events, statics, i),
            None => forall|j: int|
                0 <= j < transitions.len() ==> !(#[trigger] transitions[j]).condition.holds(
                    events,
                    statics,
                ),
        },
{
    if first_match(transitions, events, statics).is_none() {
        assert forall|j: int| 0 <= j < transitions.len() implies !(#[trigger] transitions[j]).condition.holds(
            events,
            statics,
        ) by {
            if transitions[j].condition.holds(events, statics) {
                lemma_some_match(transitions, events, statics, j);
            }
        }
    }
}

/// If some transition up to `j` is satisfied, one is chosen, and it is listed
/// no later than `j`.
proof fn lemma_some_match(
    transitions: Seq<TransitionView>,
    events: Set<nat>,
    statics: Set<nat>,
    j: int,
)
    requires
        0 <= j < transitions.len(),
        transitions[j].condition.holds(events, statics),
    ensures
        exists|i: int| 0 <= i <= j && is_first_match(transitions, events, statics, i),
    decreases j,
{
    if exists|k: int| 0 <= k < j && (#[trigger] transitions[k]).condition.holds(events, statics) {
        let k = choose|k: int|
            0 <= k < j && (#[trigger] transitions[k]).condition.holds(events, statics);
        lemma_some_match(transitions, events, statics, k);
    } else {
        assert(is_first_match(transitions, events, statics, j));
    }
}

/// When several transitions of the current state are satisfied at once, the
/// one that is listed first is taken: whenever transition `j` is satisfied, a
/// transition is chosen, it is satisfied, it is listed no later than `j`, and
/// none before it is satisfied.
pub proof fn lemma_first_listed_wins<D: Dispatch>(
    s: Snapshot<D>,
    table: TableView,
    events: Set<nat>,
    j: int,
)
    requires
        0 <= j < table.states[s.state as int].transitions.len(),
        table.states[s.state as int].transitions[j].condition.holds(events, s.statics),
    ensures
        s.choice(table, events).is_some(),
        s.choice(table, events).unwrap() <= j,
        is_first_match(
            table.states[s.state as int].transitions,
            events,
            s.statics,
            s.choice(table, events).unwrap(),
        ),
{
    let transitions = table.states[s.state as int].transitions;
    lemma_some_match(transitions, events, s.statics, j);
    let i = choose|i: int| 0 <= i <= j && is_first_match(transitions, events, s.statics, i);
    lemma_first_match_is(transitions, events, s.statics, i);
}

/// Dispatching actions never changes the current state.
pub proof fn lemma_actions_keep_state<D: Dispatch>(
    s: Snapshot<D>,
    actions: Seq<u64>,
    capacity: nat,
)
    ensures
        s.dispatched_all(actions, capacity).state == s.state,
    decreases actions.len(),
{
    if actions.len() > 0 {
        lemma_actions_keep_state(s, actions.drop_last(), capacity);
    }
}

/// Input actions never change the current state.
pub proof fn lemma_inputs_keep_state<D: Dispatch>(
    s: Snapshot<D>,
    inputs: Seq<InputActionView>,
    events: Set<nat>,
    capacity: nat,
)
    ensures
        s.inputs_run(inputs, events, capacity).state == s.state,
    decreases inputs.len(),
{
    if inputs.len() > 0 {
        lemma_inputs_keep_state(s, inputs.drop_last(), events, capacity);
    }
}

/// If no transition of the current state is satisfied once the input actions
/// have run, the cycle is over after every input action of the state and
/// every global input action has been looked at exactly once, and the current
/// state is the one in which the cycle began.
pub proof fn lemma_quiet_cycle<D: Dispatch>(s: Snapshot<D>, table: TableView, events: Set<nat>)
    requires
        s.inputs_done(table, events).choice(table, events).is_none(),
    ensures
        s.cycle(table, events) == (Outcome::<D> {
            snapshot: s.inputs_done(table, events),
            settled: true,
        }),
        s.cycle(table, events).snapshot.state == s.state,
{
    let own = s.inputs_run(table.states[s.state as int].inputs, events, table.n_statics);
    lemma_inputs_keep_state(s, table.states[s.state as int].inputs, events, table.n_statics);
    lemma_inputs_keep_state(own, table.globals, events, table.n_statics);
}

/// Taking a transition of a valid table leads to a state of the table.
pub proof fn lemma_taken_state<D: Dispatch>(s: Snapshot<D>, table: TableView, i: int)
    requires
        table.valid(),
        s.state < table.states.len(),
        0 <= i < table.states[s.state as int].transitions.len(),
    ensures
        s.taken(table, table.states[s.state as int].transitions[i]).state
            == table.states[s.state as int].transitions[i].target,
        s.taken(table, table.states[s.state as int].transitions[i]).state < table.states.len(),
{
    let t = table.states[s.state as int].transitions[i];
    let left = s.dispatched_all(t.actions, table.n_statics).dispatched_all(
        table.states[s.state as int].exit,
        table.n_statics,
    );
    let entered = Snapshot::<D> { state: t.target, statics: left.statics, store: left.store };
    lemma_actions_keep_state(entered, table.states[t.target as int].entry, table.n_statics);
}

/// A cascade that settles ends in a state in which no transition is satisfied
/// unless a new event arrives: however long the chain, it is resolved within
/// the one cycle.
pub proof fn lemma_settled_cascade_at_rest<D: Dispatch>(
    s: Snapshot<D>,
    table: TableView,
    events: Set<nat>,
    fuel: nat,
)
    requires
        s.cascade(table, events, fuel).settled,
    ensures
        s.cascade(table, events, fuel).snapshot.choice(table, Set::<nat>::empty()).is_none(),
    decreases fuel,
{
    match s.choice(table, events) {
        None => {
            lemma_choice_without_events(
                table.states[s.state as int].transitions,
                events,
                s.statics,
            );
        },
        Some(i) => {
            if fuel > 0 {
                let t = table.states[s.state as int].transitions[i];
                lemma_settled_cascade_at_rest(
                    s.taken(table, t),
                    table,
                    Set::<nat>::empty(),
                    (fuel - 1) as nat,
                );
            }
        },
    }
}

/// A cycle that settles leaves the engine in a state in which no transition
/// is satisfied by the static signals alone: nothing more happens until an
/// event is posted or a static signal changes.
pub proof fn lemma_settled_cycle_at_rest<D: Dispatch>(
    s: Snapshot<D>,
    table: TableView,
    events: Set<nat>,
)
    requires
        s.cycle(table, events).settled,
    ensures
        s.cycle(table, events).snapshot.choice(table, Set::<nat>::empty()).is_none(),
{
    lemma_settled_cascade_at_rest(s.inputs_done(table, events), table, events, table.cascade_limit);
}

/// A cycle on a valid table, begun in a state of the table, ends in a state
/// of the table.
pub proof fn lemma_cascade_stays_in_table<D: Dispatch>(
    s: Snapshot<D>,
    table: TableView,
    events: Set<nat>,
    fuel: nat,
)
    requires
        table.valid(),
        s.state < table.states.len(),
    ensures
        s.cascade(table, events, fuel).snapshot.state < table.states.len(),
    decreases fuel,
{
    match s.choice(table, events) {
        None => {},
        Some(i) => {
            if fuel > 0 {
                lemma_first_match_sound(
                    table.states[s.state as int].transitions,
                    events,
                    s.statics,
                );
                lemma_taken_state(s, table, i);
                let t = table.states[s.state as int].transitions[i];
                lemma_cascade_stays_in_table(
                    s.taken(table, t),
                    table,
                    Set::<nat>::empty(),
                    (fuel - 1) as nat,
                );
            }
        },
    }
}

/// A choice made without looking at the events: if nothing is chosen with
/// `events` active, nothing is chosen with no event active; and if what is
/// chosen asks for no event, the same is chosen with no event active.
pub proof fn lemma_choice_without_events(
    transitions: Seq<TransitionView>,
    events: Set<nat>,
    statics: Set<nat>,
)
    ensures
        match first_match(transitions, events, statics) {
            None => first_match(transitions, Set::<nat>::empty(), statics).is_none(),
            Some(i) => transitions[i].condition.event_free() ==> first_match(
                transitions,
                Set::<nat>::empty(),
                statics,
            ) == Some(i),
        },
{
    let none = Set::<nat>::empty();
    lemma_first_match_sound(transitions, events, statics);
    assert forall|j: int|
        0 <= j < transitions.len() && !(#[trigger] transitions[j]).condition.holds(
            events,
            statics,
        ) implies !transitions[j].condition.holds(none, statics) by {}
    match first_match(transitions, events, statics) {
        None => {
            lemma_first_match_sound(transitions, none, statics);
        },
        Some(i) => {
            if transitions[i].condition.event_free() {
                assert(transitions[i].condition.holds(none, statics));
                assert(is_first_match(transitions, none, statics, i));
                lemma_first_match_is(transitions, none, statics, i);
            }
        },
    }
}

/// Whatever a cascade chooses while no event is active asks for no event.
pub proof fn lemma_chain_asks_no_event<D: Dispatch>(s: Snapshot<D>, table: TableView, fuel: nat)
    ensures
        s.chain_asks_no_event(table, fuel),
    decreases fuel,
{
    let none = Set::<nat>::empty();
    let transitions = table.states[s.state as int].transitions;
    lemma_first_match_sound(transitions, none, s.statics);
    match s.choice(table, none) {
        None => {},
        Some(i) => {
            let t = transitions[i];
            match t.condition {
                ConditionView::Always => {},
                ConditionView::All { events: e, statics: _ } => {
                    assert(e =~= none);
                },
            }
            if fuel > 0 {
                lemma_chain_asks_no_event(s.taken(table, t), table, (fuel - 1) as nat);
            }
        },
    }
}

/// The events of a batch are spent on the first transition of the cycle.
/// Once the input actions have run and a first transition is chosen, the cycle
/// ends exactly where the cascade that starts behind that transition ends
/// with no event active; and every transition which that cascade chooses asks
/// for no event, so that no event of the batch is used a second time.
pub proof fn lemma_events_spent_once<D: Dispatch>(
    s: Snapshot<D>,
    table: TableView,
    events: Set<nat>,
)
    requires
        table.cascade_limit > 0,
        s.inputs_done(table, events).choice(table, events).is_some(),
    ensures
        ({
            let ready = s.inputs_done(table, events);
            let first = table.states[ready.state as int].transitions[ready.choice(
                table,
                events,
            ).unwrap()];
            &&& s.cycle(table, events) == ready.taken(table, first).cascade(
                table,
                Set::<nat>::empty(),
                (table.cascade_limit - 1) as nat,
            )
            &&& ready.taken(table, first).chain_asks_no_event(
                table,
                (table.cascade_limit - 1) as nat,
            )
        }),
{
    let ready = s.inputs_done(table, events);
    let first = table.states[ready.state as int].transitions[ready.choice(table, events).unwrap()];
    lemma_chain_asks_no_event(ready.taken(table, first), table, (table.cascade_limit - 1) as nat);
}

/// An empty batch takes no transition out of a state at rest: if no
/// transition of the current state is satisfied under some batch, and the
/// input actions that fire without any event leave the static signals as they
/// are, then the cycle of the empty batch ends in the same state, having done
/// nothing but look at the input actions.
pub proof fn lemma_empty_batch_takes_no_transition<D: Dispatch>(
    s: Snapshot<D>,
    table: TableView,
    events: Set<nat>,
)
    requires
        s.choice(table, events).is_none(),
        s.inputs_done(table, Set::<nat>::empty()).statics == s.statics,
    ensures
        s.cycle(table, Set::<nat>::empty()) == (Outcome::<D> {
            snapshot: s.inputs_done(table, Set::<nat>::empty()),
            settled: true,
        }),
        s.cycle(table, Set::<nat>::empty()).snapshot.state == s.state,
{
    let none = Set::<nat>::empty();
    let own = s.inputs_run(table.states[s.state as int].inputs, none, table.n_statics);
    lemma_inputs_keep_state(s, table.states[s.state as int].inputs, none, table.n_statics);
    lemma_inputs_keep_state(own, table.globals, none, table.n_statics);
    lemma_choice_without_events(table.states[s.state as int].transitions, events, s.statics);
    lemma_quiet_cycle(s, table, none);
}

/// Posting an empty batch to an engine that has just settled takes no
/// transition: if the cycle of `events` settled, and the input actions that
/// fire without any event leave the static signals of the state it reached as
/// they are, the cycle of the empty batch that follows ends in that same
/// state.
pub proof fn lemma_empty_batch_after_settled_cycle<D: Dispatch>(
    s: Snapshot<D>,
    table: TableView,
    events: Set<nat>,
)
    requires
        s.cycle(table, events).settled,
        ({
            let rest = s.cycle(table, events).snapshot;
            rest.inputs_done(table, Set::<nat>::empty()).statics == rest.statics
        }),
    ensures
        ({
            let rest = s.cycle(table, events).snapshot;
            &&& rest.cycle(table, Set::<nat>::empty()).settled
            &&& rest.cycle(table, Set::<nat>::empty()).snapshot.state == rest.state
            &&& rest.cycle(table, Set::<nat>::empty()).snapshot == rest.inputs_done(
                table,
                Set::<nat>::empty(),
            )
        }),
{
    lemma_settled_cycle_at_rest(s, table, events);
    lemma_empty_batch_takes_no_transition(
        s.cycle(table, events).snapshot,
        table,
        Set::<nat>::empty(),
    );
}

/// Whether no action of the host ever asks for the static signal `tag` to be
/// lowered.
pub open spec fn never_lowered<D: Dispatch>(tag: usize) -> bool {
    forall|store: D::V, action: u64| (#[trigger] D::update(store, action)) != SignalUpdate::Lower(tag)
}

/// Dispatching actions that never lower `tag` keeps it active.
proof fn lemma_actions_keep_signal<D: Dispatch>(
    s: Snapshot<D>,
    actions: Seq<u64>,
    capacity: nat,
    tag: usize,
)
    requires
        s.statics.contains(tag as nat),
        never_lowered::<D>(tag),
    ensures
        s.dispatched_all(actions, capacity).statics.contains(tag as nat),
    decreases actions.len(),
{
    if actions.len() > 0 {
        lemma_actions_keep_signal(s, actions.drop_last(), capacity, tag);
        let before = s.dispatched_all(actions.drop_last(), capacity);
        assert(D::update(before.store, actions.last()) != SignalUpdate::Lower(tag));
    }
}

/// Input actions that never lower `tag` keep it active.
proof fn lemma_inputs_keep_signal<D: Dispatch>(
    s: Snapshot<D>,
    inputs: Seq<InputActionView>,
    events: Set<nat>,
    capacity: nat,
    tag: usize,
)
    requires
        s.statics.contains(tag as nat),
        never_lowered::<D>(tag),
    ensures
        s.inputs_run(inputs, events, capacity).statics.contains(tag as nat),
    decreases inputs.len(),
{
    if inputs.len() > 0 {
        lemma_inputs_keep_signal(s, inputs.drop_last(), events, capacity, tag);
        let before = s.inputs_run(inputs.drop_last(), events, capacity);
        assert(D::update(before.store, inputs.last().action) != SignalUpdate::Lower(tag));
    }
}

/// A cascade whose actions never lower `tag` keeps it active.
proof fn lemma_cascade_keeps_signal<D: Dispatch>(
    s: Snapshot<D>,
    table: TableView,
    events: Set<nat>,
    fuel: nat,
    tag: usize,
)
    requires
        s.statics.contains(tag as nat),
        never_lowered::<D>(tag),
    ensures
        s.cascade(table, events, fuel).snapshot.statics.contains(tag as nat),
    decreases fuel,
{
    match s.choice(table, events) {
        None => {},
        Some(i) => {
            if fuel > 0 {
                let t = table.states[s.state as int].transitions[i];
                let a = s.dispatched_all(t.actions, table.n_statics);
                lemma_actions_keep_signal(s, t.actions, table.n_statics, tag);
                let left = a.dispatched_all(table.states[s.state as int].exit, table.n_statics);
                lemma_actions_keep_signal(a, table.states[s.state as int].exit, table.n_statics, tag);
                let entered = Snapshot::<D> { state: t.target, statics: left.statics, store: left.store };
                lemma_actions_keep_signal(
                    entered,
                    table.states[t.target as int].entry,
                    table.n_statics,
                    tag,
                );
                lemma_cascade_keeps_signal(
                    s.taken(table, t),
                    table,
                    Set::<nat>::empty(),
                    (fuel - 1) as nat,
                    tag,
                );
            }
        },
    }
}

/// An active static signal stays active through any number of cycles,
/// whatever is posted, as long as no dispatched action asks for it to be
/// lowered: the engine itself never clears a static signal.
pub proof fn lemma_static_signal_persists<D: Dispatch>(
    s: Snapshot<D>,
    table: TableView,
    batches: Seq<Set<nat>>,
    tag: usize,
)
    requires
        s.statics.contains(tag as nat),
        never_lowered::<D>(tag),
    ensures
        s.cycles(table, batches).statics.contains(tag as nat),
    decreases batches.len(),
{
    if batches.len() > 0 {
        lemma_static_signal_persists(s, table, batches.drop_last(), tag);
        let before = s.cycles(table, batches.drop_last());
        let events = batches.last();
        let own = before.inputs_run(
            table.states[before.state as int].inputs,
            events,
            table.n_statics,
        );
        lemma_inputs_keep_signal(
            before,
            table.states[before.state as int].inputs,
            events,
            table.n_statics,
            tag,
        );
        lemma_inputs_keep_signal(own, table.globals, events, table.n_statics, tag);
        lemma_cascade_keeps_signal(
            before.inputs_done(table, events),
            table,
            events,
            table.cascade_limit,
            tag,
        );
    }
}

} // verus!
