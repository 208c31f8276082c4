//! What one resolution cycle does, as mathematics.
//!
//! A snapshot is what an observer can see of an engine between two cycles: the
//! current state, the active static signals and the host's store. The
//! functions below say how a cycle takes one snapshot to the next; the engine
//! is proved to compute exactly that.

use vstd::prelude::*;
use crate::dispatch::{updated, Dispatch};
use crate::table::{InputActionView, TableView, TransitionView};

verus! {

/// Whether `i` is the first transition of the list whose condition holds.
pub open spec fn is_first_match(
    transitions: Seq<TransitionView>,
    events: Set<nat>,
    statics: Set<nat>,
    i: int,
) -> bool {
    &&& 0 <= i < transitions.len()
    &&& transitions[i].condition.holds(events, statics)
    &&& forall|j: int| 0 <= j < i ==> !(#[trigger] transitions[j]).condition.holds(events, statics)
}

/// The first transition of the list whose condition holds, if there is one.
pub open spec fn first_match(
    transitions: Seq<TransitionView>,
    events: Set<nat>,
    statics: Set<nat>,
) -> Option<int> {
    if exists|i: int| is_first_match(transitions, events, statics, i) {
        Some(choose|i: int| is_first_match(transitions, events, statics, i))
    } else {
        None
    }
}

/// What can be observed of an engine between two cycles. The store is seen
/// through its view.
pub struct Snapshot<D: Dispatch> {
    pub state: nat,
    pub statics: Set<nat>,
    pub store: D::V,
}

/// Where a cycle ends: the snapshot it leaves, and whether the cascade of
/// transitions came to rest within the table's limit.
pub struct Outcome<D: Dispatch> {
    pub snapshot: Snapshot<D>,
    pub settled: bool,
}

impl<D: Dispatch> Snapshot<D> {
    /// The snapshot after `action` has been dispatched.
    pub open spec fn dispatched(self, action: u64, capacity: nat) -> Snapshot<D> {
        Snapshot {
            state: self.state,
            statics: updated(self.statics, D::update(self.store, action), capacity),
            store: D::after(self.store, action),
        }
    }

    /// The snapshot after every action of `actions` has been dispatched, in
    /// order.
    pub open spec fn dispatched_all(self, actions: Seq<u64>, capacity: nat) -> Snapshot<D>
        decreases actions.len(),
    {
        if actions.len() == 0 {
            self
        } else {
            self.dispatched_all(actions.drop_last(), capacity).dispatched(actions.last(), capacity)
        }
    }

    /// The snapshot after one input action has been looked at: its action is
    /// dispatched if its condition holds.
    pub open spec fn input_run(
        self,
        input: InputActionView,
        events: Set<nat>,
        capacity: nat,
    ) -> Snapshot<D> {
        if input.condition.holds(events, self.statics) {
            self.dispatched(input.action, capacity)
        } else {
            self
        }
    }

    /// The snapshot after every input action of `inputs` has been looked at
    /// once, in order. Each condition is judged against the static signals as
    /// the actions before it left them.
    pub open spec fn inputs_run(
        self,
        inputs: Seq<InputActionView>,
        events: Set<nat>,
        capacity: nat,
    ) -> Snapshot<D>
        decreases inputs.len(),
    {
        if inputs.len() == 0 {
            self
        } else {
            self.inputs_run(inputs.drop_last(), events, capacity).input_run(
                inputs.last(),
                events,
                capacity,
            )
        }
    }

    /// The snapshot after transition `t` has been taken: its own actions, then
    /// the exit actions of the state that is left, then the switch, then the
    /// entry actions of the state that is entered.
    pub open spec fn taken(self, table: TableView, t: TransitionView) -> Snapshot<D> {
        let left = self.dispatched_all(t.actions, table.n_statics).dispatched_all(
            table.states[self.state as int].exit,
            table.n_statics,
        );
        let entered = Snapshot { state: t.target, statics: left.statics, store: left.store };
        entered.dispatched_all(table.states[t.target as int].entry, table.n_statics)
    }

    /// The transition that would be taken now, if any: the first one of the
    /// current state whose condition holds.
    pub open spec fn choice(self, table: TableView, events: Set<nat>) -> Option<int> {
        first_match(table.states[self.state as int].transitions, events, self.statics)
    }

    /// Takes transitions until none is enabled, at most `fuel` of them.
    ///
    /// The events count for the first transition only: once a transition has
    /// been taken they are spent, and what follows in the same cycle is
    /// driven by the wildcard and by the static signals alone.
    pub open spec fn cascade(self, table: TableView, events: Set<nat>, fuel: nat) -> Outcome<D>
        decreases fuel,
    {
        match self.choice(table, events) {
            None => Outcome { snapshot: self, settled: true },
            Some(i) => if fuel == 0 {
                Outcome { snapshot: self, settled: false }
            } else {
                self.taken(table, table.states[self.state as int].transitions[i]).cascade(
                    table,
                    Set::<nat>::empty(),
                    (fuel - 1) as nat,
                )
            },
        }
    }

    /// The snapshot after the input actions of the current state and then the
    /// global ones have been looked at.
    pub open spec fn inputs_done(self, table: TableView, events: Set<nat>) -> Snapshot<D> {
        self.inputs_run(table.states[self.state as int].inputs, events, table.n_statics).inputs_run(
            table.globals,
            events,
            table.n_statics,
        )
    }

    /// One whole resolution cycle with `events` active.
    pub open spec fn cycle(self, table: TableView, events: Set<nat>) -> Outcome<D> {
        self.inputs_done(table, events).cascade(table, events, table.cascade_limit)
    }

    /// The snapshot after one cycle for each batch of `batches`, in order.
    /// A cycle that is cut short at the cascade limit leaves the snapshot at
    /// which it was stopped, and the next cycle goes on from there.
    pub open spec fn cycles(self, table: TableView, batches: Seq<Set<nat>>) -> Snapshot<D>
        decreases batches.len(),
    {
        if batches.len() == 0 {
            self
        } else {
            self.cycles(table, batches.drop_last()).cycle(table, batches.last()).snapshot
        }
    }

    /// Whether every transition that a cascade from here chooses when no
    /// event is active, the one at which it is cut short included, has a
    /// condition that asks for no event: the wildcard, or static signals only.
    pub open spec fn chain_asks_no_event(self, table: TableView, fuel: nat) -> bool
        decreases fuel,
    {
        match self.choice(table, Set::<nat>::empty()) {
            None => true,
            Some(i) => {
                let t = table.states[self.state as int].transitions[i];
                &&& t.condition.event_free()
                &&& fuel > 0 ==> self.taken(table, t).chain_asks_no_event(table, (fuel - 1) as nat)
            },
        }
    }
}

} // verus!
