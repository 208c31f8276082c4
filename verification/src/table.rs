//! The state table: for every state its entry, exit and input actions and its
//! transitions, fixed once it has been built.
//!
//! States are numbered from zero in the order in which they are listed, so a
//! table defines exactly the states below its length. An action is an opaque
//! token; the table never says what it does.

use vstd::prelude::*;
use crate::signal::{Condition, ConditionView};

verus! {

/// An action guarded by a condition.
#[derive(Debug, Clone)]
pub struct InputAction {
    pub condition: Condition,
    pub action: u64,
}

/// An input action as mathematics.
pub struct InputActionView {
    pub condition: ConditionView,
    pub action: u64,
}

impl View for InputAction {
    type V = InputActionView;

    open spec fn view(&self) -> InputActionView {
        InputActionView { condition: self.condition@, action: self.action }
    }
}

/// A guarded move to `target`, with the actions dispatched when it is taken.
#[derive(Debug, Clone)]
pub struct Transition {
    pub condition: Condition,
    pub target: usize,
    pub actions: Vec<u64>,
}

/// A transition as mathematics.
pub struct TransitionView {
    pub condition: ConditionView,
    pub target: nat,
    pub actions: Seq<u64>,
}

impl View for Transition {
    type V = TransitionView;

    open spec fn view(&self) -> TransitionView {
        TransitionView {
            condition: self.condition@,
            target: self.target as nat,
            actions: self.actions@,
        }
    }
}

/// Everything the table says about one state. The order of each list is the
/// order of dispatch, and for transitions the order of precedence.
#[derive(Debug, Clone)]
pub struct StateSpec {
    pub name: String,
    pub entry_actions: Vec<u64>,
    pub exit_actions: Vec<u64>,
    pub input_actions: Vec<InputAction>,
    pub transitions: Vec<Transition>,
}

/// What the table says about one state, as mathematics.
pub struct StateView {
    pub name: Seq<char>,
    pub entry: Seq<u64>,
    pub exit: Seq<u64>,
    pub inputs: Seq<InputActionView>,
    pub transitions: Seq<TransitionView>,
}

/// The views of a list of input actions, in order.
pub open spec fn input_views(inputs: Seq<InputAction>) -> Seq<InputActionView> {
    Seq::new(inputs.len(), |i: int| inputs[i]@)
}

/// The views of a list of transitions, in order.
pub open spec fn transition_views(transitions: Seq<Transition>) -> Seq<TransitionView> {
    Seq::new(transitions.len(), |i: int| transitions[i]@)
}

/// The views of a list of states, in order.
pub open spec fn state_views(states: Seq<StateSpec>) -> Seq<StateView> {
    Seq::new(states.len(), |i: int| states[i]@)
}

impl View for StateSpec {
    type V = StateView;

    open spec fn view(&self) -> StateView {
        StateView {
            name: self.name@,
            entry: self.entry_actions@,
            exit: self.exit_actions@,
            inputs: input_views(self.input_actions@),
            transitions: transition_views(self.transitions@),
        }
    }
}

/// Whether every input action of the list names only declared tags.
pub open spec fn inputs_declared(inputs: Seq<InputActionView>, n_events: nat, n_statics: nat) -> bool {
    forall|i: int| 0 <= i < inputs.len() ==> (#[trigger] inputs[i]).condition.declared(
        n_events,
        n_statics,
    )
}

/// Whether every transition of the list names only declared tags.
pub open spec fn transitions_declared(
    transitions: Seq<TransitionView>,
    n_events: nat,
    n_statics: nat,
) -> bool {
    forall|i: int| 0 <= i < transitions.len() ==> (#[trigger] transitions[i]).condition.declared(
        n_events,
        n_statics,
    )
}

/// Whether every transition of the list leads to a state below `n_states`.
pub open spec fn targets_below(transitions: Seq<TransitionView>, n_states: nat) -> bool {
    forall|i: int| 0 <= i < transitions.len() ==> (#[trigger] transitions[i]).target < n_states
}

/// Why a table, or a table with its initial state, is refused.
#[derive(Debug, Clone, Copy, PartialEq, Eq, Structural)]
pub enum ConfigurationError {
    /// A transition leads to a state that the table does not define.
    MissingState,
    /// A condition names a tag outside the declared vocabularies.
    UndeclaredSignal,
    /// The initial state is not a state of the table.
    InitialStateMissing,
    /// The cycle run from the initial state took more transitions than the
    /// table's cascade limit allows.
    RunawayCascade,
}

/// A state table as mathematics.
pub struct TableView {
    pub n_events: nat,
    pub n_statics: nat,
    pub states: Seq<StateView>,
    pub globals: Seq<InputActionView>,
    pub cascade_limit: nat,
}

impl TableView {
    /// Every transition leads to a state of the table.
    pub open spec fn targets_defined(self) -> bool {
        forall|s: int| 0 <= s < self.states.len() ==> targets_below(
            (#[trigger] self.states[s]).transitions,
            self.states.len(),
        )
    }

    /// Every condition names only declared tags.
    pub open spec fn signals_declared(self) -> bool {
        &&& inputs_declared(self.globals, self.n_events, self.n_statics)
        &&& forall|s: int| 0 <= s < self.states.len() ==> {
            &&& inputs_declared((#[trigger] self.states[s]).inputs, self.n_events, self.n_statics)
            &&& transitions_declared(self.states[s].transitions, self.n_events, self.n_statics)
        }
    }

    /// What a well-built table satisfies.
    pub open spec fn valid(self) -> bool {
        self.targets_defined() && self.signals_declared()
    }

    /// The reason for which the table is refused, if there is one. A missing
    /// state is reported before an undeclared signal.
    pub open spec fn defect(self) -> Option<ConfigurationError> {
        if !self.targets_defined() {
            Some(ConfigurationError::MissingState)
        } else if !self.signals_declared() {
            Some(ConfigurationError::UndeclaredSignal)
        } else {
            None
        }
    }
}

/// Whether every input action of `inputs` names only declared tags.
pub fn inputs_are_declared(inputs: &Vec<InputAction>, n_events: usize, n_statics: usize) -> (all: bool)
    ensures
        all == inputs_declared(input_views(inputs@), n_events as nat, n_statics as nat),
{
    let mut i: usize = 0;
    while i < inputs.len()
        invariant
            i <= inputs.len(),
            forall|k: int|
                0 <= k < i ==> (#[trigger] input_views(inputs@)[k]).condition.declared(
                    n_events as nat,
                    n_statics as nat,
                ),
        decreases inputs.len() - i,
    {
        if !inputs[i].condition.is_declared(n_events, n_statics) {
            assert(input_views(inputs@)[i as int].condition == inputs@[i as int].condition@);
            return false;
        }
        assert(input_views(inputs@)[i as int].condition == inputs@[i as int].condition@);
        i = i + 1;
    }
    true
}

/// Whether every transition of `transitions` names only declared tags.
pub fn transitions_are_declared(
    transitions: &Vec<Transition>,
    n_events: usize,
    n_statics: usize,
) -> (all: bool)
    ensures
        all == transitions_declared(
            transition_views(transitions@),
            n_events as nat,
            n_statics as nat,
        ),
{
    let mut i: usize = 0;
    while i < transitions.len()
        invariant
            i <= transitions.len(),
            forall|k: int|
                0 <= k < i ==> (#[trigger] transition_views(transitions@)[k]).condition.declared(
                    n_events as nat,
                    n_statics as nat,
                ),
        decreases transitions.len() - i,
    {
        if !transitions[i].condition.is_declared(n_events, n_statics) {
            assert(transition_views(transitions@)[i as int].condition
                == transitions@[i as int].condition@);
            return false;
        }
        assert(transition_views(transitions@)[i as int].condition
            == transitions@[i as int].condition@);
        i = i + 1;
    }
    true
}

/// Whether every transition of `transitions` leads to a state below `n_states`.
pub fn targets_are_below(transitions: &Vec<Transition>, n_states: usize) -> (all: bool)
    ensures
        all == targets_below(transition_views(transitions@), n_states as nat),
{
    let mut i: usize = 0;
    while i < transitions.len()
        invariant
            i <= transitions.len(),
            forall|k: int|
                0 <= k < i ==> (#[trigger] transition_views(transitions@)[k]).target < n_states,
        decreases transitions.len() - i,
    {
        if transitions[i].target >= n_states {
            assert(transition_views(transitions@)[i as int].target == transitions@[i as int].target);
            return false;
        }
        assert(transition_views(transitions@)[i as int].target == transitions@[i as int].target);
        i = i + 1;
    }
    true
}

/// A validated state table. It cannot be changed once built.
#[derive(Debug)]
pub struct StateTable {
    n_events: usize,
    n_statics: usize,
    states: Vec<StateSpec>,
    globals: Vec<InputAction>,
    cascade_limit: usize,
}

impl View for StateTable {
    type V = TableView;

    closed spec fn view(&self) -> TableView {
        TableView {
            n_events: self.n_events as nat,
            n_statics: self.n_statics as nat,
            states: state_views(self.states@),
            globals: input_views(self.globals@),
            cascade_limit: self.cascade_limit as nat,
        }
    }
}

impl StateTable {
    /// Every table that exists is valid.
    #[verifier::type_invariant]
    pub open spec fn well_built(&self) -> bool {
        self@.valid()
    }

    /// Builds the table of the states `states`, numbered in order, over
    /// vocabularies of `n_events` event tags and `n_statics` static-signal
    /// tags. `globals` are the input actions that apply in every state, and
    /// `cascade_limit` is the largest number of transitions one cycle may take.
    ///
    /// The table is refused if a transition leads to a state that is not
    /// listed, or if a condition names a tag outside the vocabularies.
    pub fn new(
        n_events: usize,
        n_statics: usize,
        states: Vec<StateSpec>,
        globals: Vec<InputAction>,
        cascade_limit: usize,
    ) -> (built: Result<StateTable, ConfigurationError>)
        ensures
            match built {
                Ok(table) => table@ == (TableView {
                    n_events: n_events as nat,
                    n_statics: n_statics as nat,
                    states: state_views(states@),
                    globals: input_views(globals@),
                    cascade_limit: cascade_limit as nat,
                }) && table@.defect().is_none(),
                Err(e) => (TableView {
                    n_events: n_events as nat,
                    n_statics: n_statics as nat,
                    states: state_views(states@),
                    globals: input_views(globals@),
                    cascade_limit: cascade_limit as nat,
                }).defect() == Some(e),
            },
    {
        let ghost view = TableView {
            n_events: n_events as nat,
            n_statics: n_statics as nat,
            states: state_views(states@),
            globals: input_views(globals@),
            cascade_limit: cascade_limit as nat,
        };
        let n: usize = states.len();
        let mut s: usize = 0;
        while s < n
            invariant
                s <= n,
                n == states.len(),
                view == (TableView {
                    n_events: n_events as nat,
                    n_statics: n_statics as nat,
                    states: state_views(states@),
                    globals: input_views(globals@),
                    cascade_limit: cascade_limit as nat,
                }),
                forall|k: int|
                    0 <= k < s ==> targets_below(
                        (#[trigger] view.states[k]).transitions,
                        view.states.len(),
                    ),
            decreases n - s,
        {
            if !targets_are_below(&states[s].transitions, n) {
                assert(view.states[s as int].transitions == transition_views(
                    states@[s as int].transitions@,
                ));
                return Err(ConfigurationError::MissingState);
            }
            assert(view.states[s as int].transitions == transition_views(
                states@[s as int].transitions@,
            ));
            s = s + 1;
        }
        assert(view.targets_defined());
        if !inputs_are_declared(&globals, n_events, n_statics) {
            return Err(ConfigurationError::UndeclaredSignal);
        }
        let mut s: usize = 0;
        while s < n
            invariant
                s <= n,
                n == states.len(),
                view == (TableView {
                    n_events: n_events as nat,
                    n_statics: n_statics as nat,
                    states: state_views(states@),
                    globals: input_views(globals@),
                    cascade_limit: cascade_limit as nat,
                }),
                view.targets_defined(),
                inputs_declared(view.globals, view.n_events, view.n_statics),
                forall|k: int|
                    0 <= k < s ==> {
                        &&& inputs_declared(
                            (#[trigger] view.states[k]).inputs,
                            view.n_events,
                            view.n_statics,
                        )
                        &&& transitions_declared(
                            view.states[k].transitions,
                            view.n_events,
                            view.n_statics,
                        )
                    },
            decreases n - s,
        {
            assert(view.states[s as int] == states@[s as int]@);
            if !inputs_are_declared(&states[s].input_actions, n_events, n_statics) {
                return Err(ConfigurationError::UndeclaredSignal);
            }
            if !transitions_are_declared(&states[s].transitions, n_events, n_statics) {
                return Err(ConfigurationError::UndeclaredSignal);
            }
            s = s + 1;
        }
        assert(view.signals_declared());
        Ok(StateTable { n_events, n_statics, states, globals, cascade_limit })
    }

    /// The number of states; the states are the numbers below it.
    pub fn len(&self) -> (n: usize)
        ensures
            n == self@.states.len(),
    {
        self.states.len()
    }

    /// The size of the event vocabulary.
    pub fn n_events(&self) -> (n: usize)
        ensures
            n == self@.n_events,
    {
        self.n_events
    }

    /// The size of the static-signal vocabulary.
    pub fn n_statics(&self) -> (n: usize)
        ensures
            n == self@.n_statics,
    {
        self.n_statics
    }

    /// The largest number of transitions that one cycle may take.
    pub fn cascade_limit(&self) -> (n: usize)
        ensures
            n == self@.cascade_limit,
    {
        self.cascade_limit
    }

    /// What the table says about `state`.
    pub fn get_state_spec(&self, state: usize) -> (spec: &StateSpec)
        requires
            state < self@.states.len(),
        ensures
            spec@ == self@.states[state as int],
    {
        &self.states[state]
    }

    /// The input actions that apply in every state.
    pub fn get_global_input_actions(&self) -> (globals: &Vec<InputAction>)
        ensures
            input_views(globals@) == self@.globals,
    {
        &self.globals
    }
}

} // verus!
