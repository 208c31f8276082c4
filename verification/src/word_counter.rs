//! A word counter driven by a state machine.
//!
//! The machine reads a text one character at a time. Each character is
//! announced as one of two events, and the table below counts the places where
//! a run of alphanumeric characters begins.

use vstd::prelude::*;
use crate::dispatch::{Dispatch, SignalUpdate};
use crate::engine::Engine;
use crate::model::{is_first_match, Outcome, Snapshot};
use crate::signal::{below, tag_set, Condition, ConditionView};
use crate::table::{
    input_views, state_views, InputAction, InputActionView, StateSpec, StateTable, StateView,
    TableView, Transition, TransitionView,
};

verus! {

/// Event: the character read is alphanumeric.
pub const READ_ALPHANUMERIC: usize = 0;

/// Event: the character read is anything else.
pub const READ_OTHER: usize = 1;

/// State: nothing has happened yet.
pub const INIT: usize = 0;

/// State: the last character read belongs to a word.
pub const IN_WORD: usize = 1;

/// State: the last character read, if any, belongs to no word.
pub const OUT_WORD: usize = 2;

/// Action: emit the greeting.
pub const PRINT_HELLO: u64 = 0;

/// Action: add one to the counter.
pub const INCREMENT_COUNTER: u64 = 1;

/// Read token: the number of words counted.
pub const COUNTER: u64 = 0;

/// Read token: the number of greetings emitted.
pub const GREETINGS: u64 = 1;

/// The largest number of transitions that one cycle of the word counter may
/// take. Its table never takes more than one.
pub const CASCADE_LIMIT: usize = 4;

/// One more than `n`, except that the largest value stays as it is.
pub open spec fn bump(n: u32) -> u32 {
    if n < u32::MAX {
        (n + 1) as u32
    } else {
        n
    }
}

/// The data that the word counter's actions work on.
///
/// Both numbers stop at the largest value of their type rather than wrap
/// around: an action never fails.
#[derive(Debug, Clone, Copy, PartialEq, Eq, Structural)]
pub struct WordCounter {
    pub counter: u32,
    pub greetings: u32,
}

impl View for WordCounter {
    type V = WordCounter;

    open spec fn view(&self) -> WordCounter {
        *self
    }
}

impl Dispatch for WordCounter {
    open spec fn after(store: WordCounter, action: u64) -> WordCounter {
        if action == INCREMENT_COUNTER {
            WordCounter { counter: bump(store.counter), greetings: store.greetings }
        } else if action == PRINT_HELLO {
            WordCounter { counter: store.counter, greetings: bump(store.greetings) }
        } else {
            store
        }
    }

    open spec fn update(store: WordCounter, action: u64) -> SignalUpdate {
        SignalUpdate::Keep
    }

    open spec fn shown(store: WordCounter, token: u64) -> u64 {
        if token == COUNTER {
            store.counter as u64
        } else if token == GREETINGS {
            store.greetings as u64
        } else {
            0
        }
    }

    fn dispatch(&mut self, action: u64) -> (update: SignalUpdate) {
        if action == INCREMENT_COUNTER {
            USER_increment_counter(&mut self.counter);
        } else if action == PRINT_HELLO {
            USER_increment_counter(&mut self.greetings);
        }
        SignalUpdate::Keep
    }

    fn read(&self, token: u64) -> (value: u64) {
        if token == COUNTER {
            self.counter as u64
        } else if token == GREETINGS {
            self.greetings as u64
        } else {
            0
        }
    }
}

/// Adds one to `counter`, which stays at the largest value once it is there.
#[allow(non_snake_case)]
pub fn USER_increment_counter(counter: &mut u32)
    ensures
        *final(counter) == bump(*old(counter)),
{
    if *counter < u32::MAX {
        *counter = *counter + 1;
    }
}

/// A state without entry, exit or input actions and with one transition.
pub open spec fn plain_state(name: Seq<char>, transition: TransitionView) -> StateView {
    StateView {
        name,
        entry: Seq::<u64>::empty(),
        exit: Seq::<u64>::empty(),
        inputs: Seq::<InputActionView>::empty(),
        transitions: seq![transition],
    }
}

/// The condition that asks for the single event `event`.
pub open spec fn on_event(event: usize) -> ConditionView {
    ConditionView::All {
        events: tag_set(seq![event]),
        statics: tag_set(Seq::<usize>::empty()),
    }
}

/// The word counter's table. The initial state is left at once; outside a
/// word an alphanumeric character starts a word and is counted; inside a word
/// any other character ends it. The greeting is emitted in every cycle.
pub open spec fn word_counter_view() -> TableView {
    TableView {
        n_events: 2,
        n_statics: 0,
        states: seq![
            plain_state(
                "init"@,
                TransitionView {
                    condition: ConditionView::Always,
                    target: OUT_WORD as nat,
                    actions: Seq::<u64>::empty(),
                },
            ),
            plain_state(
                "in_word"@,
                TransitionView {
                    condition: on_event(READ_OTHER),
                    target: OUT_WORD as nat,
                    actions: Seq::<u64>::empty(),
                },
            ),
            plain_state(
                "out_word"@,
                TransitionView {
                    condition: on_event(READ_ALPHANUMERIC),
                    target: IN_WORD as nat,
                    actions: seq![INCREMENT_COUNTER],
                },
            ),
        ],
        globals: seq![InputActionView { condition: ConditionView::Always, action: PRINT_HELLO }],
        cascade_limit: CASCADE_LIMIT as nat,
    }
}

/// Builds a state without entry, exit or input actions and with one
/// transition.
fn build_plain_state(name: &str, transition: Transition) -> (state: StateSpec)
    ensures
        state@ == plain_state(name@, transition@),
{
    let ghost t = transition@;
    let mut transitions: Vec<Transition> = Vec::new();
    transitions.push(transition);
    let state = StateSpec {
        name: name.to_owned(),
        entry_actions: Vec::new(),
        exit_actions: Vec::new(),
        input_actions: Vec::new(),
        transitions,
    };
    assert(state@.transitions =~= seq![t]);
    assert(state@.inputs =~= Seq::<InputActionView>::empty());
    assert(state@.entry =~= Seq::<u64>::empty());
    assert(state@.exit =~= Seq::<u64>::empty());
    state
}

/// Builds the condition that asks for the single event `event`.
fn build_on_event(event: usize) -> (condition: Condition)
    ensures
        condition@ == on_event(event),
{
    let mut events: Vec<usize> = Vec::new();
    events.push(event);
    let condition = Condition::All { events, statics: Vec::new() };
    assert(events@ =~= seq![event]);
    condition
}

/// Builds the word counter's table.
pub fn word_counter_table() -> (table: StateTable)
    ensures
        table@ == word_counter_view(),
{
    let init = build_plain_state(
        "init",
        Transition { condition: Condition::Always, target: OUT_WORD, actions: Vec::new() },
    );
    let in_word = build_plain_state(
        "in_word",
        Transition { condition: build_on_event(READ_OTHER), target: OUT_WORD, actions: Vec::new() },
    );
    let mut counted: Vec<u64> = Vec::new();
    counted.push(INCREMENT_COUNTER);
    assert(counted@ =~= seq![INCREMENT_COUNTER]);
    let out_word = build_plain_state(
        "out_word",
        Transition { condition: build_on_event(READ_ALPHANUMERIC), target: IN_WORD, actions: counted },
    );
    let mut states: Vec<StateSpec> = Vec::new();
    states.push(init);
    states.push(in_word);
    states.push(out_word);
    let mut globals: Vec<InputAction> = Vec::new();
    globals.push(InputAction { condition: Condition::Always, action: PRINT_HELLO });
    assert(state_views(states@) =~= word_counter_view().states);
    assert(input_views(globals@) =~= word_counter_view().globals);
    proof {
        lemma_word_counter_table_valid();
    }
    match StateTable::new(2, 0, states, globals, CASCADE_LIMIT) {
        Ok(table) => table,
        Err(_) => vstd::pervasive::unreached(),
    }
}

/// The word counter's table has no defect.
pub proof fn lemma_word_counter_table_valid()
    ensures
        word_counter_view().valid(),
{
    let table = word_counter_view();
    assert forall|t: nat| #[trigger] tag_set(seq![READ_OTHER]).contains(t) implies t < 2 by {}
    assert forall|t: nat| #[trigger]
        tag_set(seq![READ_ALPHANUMERIC]).contains(t) implies t < 2 by {}
    assert forall|t: nat| #[trigger]
        tag_set(Seq::<usize>::empty()).contains(t) implies t < 0 by {}
    assert(on_event(READ_OTHER).declared(2, 0));
    assert(on_event(READ_ALPHANUMERIC).declared(2, 0));
    assert(table.states[0].transitions[0].condition.declared(2, 0));
    assert(table.states[1].transitions[0].condition.declared(2, 0));
    assert(table.states[2].transitions[0].condition.declared(2, 0));
    assert(table.globals[0].condition.declared(2, 0));
}

/// The event that announces a character, given whether it is alphanumeric.
pub open spec fn event_of(alphanumeric: bool) -> usize {
    if alphanumeric {
        READ_ALPHANUMERIC
    } else {
        READ_OTHER
    }
}

/// The state of the word counter after a character has been read in `state`.
pub open spec fn state_after(state: nat, alphanumeric: bool) -> nat {
    if state == OUT_WORD && alphanumeric {
        IN_WORD as nat
    } else if state == IN_WORD && !alphanumeric {
        OUT_WORD as nat
    } else {
        state
    }
}

/// The store of the word counter after a character has been read in `state`:
/// one greeting more, and one word more if the character starts a word.
pub open spec fn store_after(state: nat, store: WordCounter, alphanumeric: bool) -> WordCounter {
    WordCounter {
        counter: if state == OUT_WORD && alphanumeric {
            bump(store.counter)
        } else {
            store.counter
        },
        greetings: bump(store.greetings),
    }
}

/// In the word counter's table a state has one transition, so that one is
/// chosen exactly when its condition holds.
proof fn lemma_single_choice(s: Snapshot<WordCounter>, events: Set<nat>)
    requires
        s.state < 3,
    ensures
        s.choice(word_counter_view(), events) == if word_counter_view().states[s.state as int].transitions[0].condition.holds(
            events,
            s.statics,
        ) {
            Some(0int)
        } else {
            None
        },
{
    let transitions = word_counter_view().states[s.state as int].transitions;
    assert(transitions.len() == 1);
    if transitions[0].condition.holds(events, s.statics) {
        assert(is_first_match(transitions, events, s.statics, 0));
    }
}

/// The greeting is the only input action of the word counter, and it fires in
/// every cycle.
proof fn lemma_inputs_greet(s: Snapshot<WordCounter>, events: Set<nat>)
    requires
        s.state < 3,
    ensures
        s.inputs_done(word_counter_view(), events) == (Snapshot::<WordCounter> {
            state: s.state,
            statics: s.statics,
            store: WordCounter { counter: s.store.counter, greetings: bump(s.store.greetings) },
        }),
{
    reveal_with_fuel(Snapshot::inputs_run, 2);
    let table = word_counter_view();
    assert(table.states[s.state as int].inputs.len() == 0);
    assert(table.globals.len() == 1);
    assert(table.globals.drop_last().len() == 0);
    assert(table.globals.last() == InputActionView {
        condition: ConditionView::Always,
        action: PRINT_HELLO,
    });
}

/// What one cycle of the word counter does when a single character is
/// announced in one of the two states between which the counter moves.
pub proof fn lemma_character_cycle(s: Snapshot<WordCounter>, alphanumeric: bool)
    requires
        s.state == IN_WORD || s.state == OUT_WORD,
    ensures
        s.cycle(word_counter_view(), tag_set(seq![event_of(alphanumeric)])) == (Outcome::<WordCounter> {
            snapshot: Snapshot::<WordCounter> {
                state: state_after(s.state, alphanumeric),
                statics: s.statics,
                store: store_after(s.state, s.store, alphanumeric),
            },
            settled: true,
        }),
{
    reveal_with_fuel(Snapshot::cascade, 3);
    reveal_with_fuel(Snapshot::dispatched_all, 2);
    let table = word_counter_view();
    let events = tag_set(seq![event_of(alphanumeric)]);
    assert(events.contains(event_of(alphanumeric) as nat)) by {
        assert(seq![event_of(alphanumeric)][0] == event_of(alphanumeric));
    }
    assert(!events.contains(event_of(!alphanumeric) as nat));
    assert(tag_set(seq![READ_ALPHANUMERIC]).contains(READ_ALPHANUMERIC as nat)) by {
        assert(seq![READ_ALPHANUMERIC][0] == READ_ALPHANUMERIC);
    }
    assert(tag_set(seq![READ_OTHER]).contains(READ_OTHER as nat)) by {
        assert(seq![READ_OTHER][0] == READ_OTHER);
    }
    assert(on_event(READ_ALPHANUMERIC).holds(events, s.statics) == alphanumeric);
    assert(on_event(READ_OTHER).holds(events, s.statics) == !alphanumeric);
    let greeted = s.inputs_done(table, events);
    lemma_inputs_greet(s, events);
    lemma_single_choice(greeted, events);
    if greeted.choice(table, events).is_some() {
        let t = table.states[greeted.state as int].transitions[0];
        let next = greeted.taken(table, t);
        assert(t.actions.len() <= 1);
        if t.actions.len() == 1 {
            assert(t.actions.drop_last().len() == 0);
            assert(t.actions.last() == INCREMENT_COUNTER);
        }
        assert(next.state == state_after(s.state, alphanumeric));
        assert(next.statics == s.statics);
        assert(next.store == store_after(s.state, s.store, alphanumeric));
        lemma_single_choice(next, Set::<nat>::empty());
        assert(!on_event(READ_ALPHANUMERIC).holds(Set::<nat>::empty(), next.statics));
        assert(!on_event(READ_OTHER).holds(Set::<nat>::empty(), next.statics));
        assert(next.choice(table, Set::<nat>::empty()).is_none());
    }
}

/// What the first cycle of the word counter does: it leaves the initial state
/// for the state outside a word, and greets.
pub proof fn lemma_first_cycle(store: WordCounter)
    ensures
        (Snapshot::<WordCounter> { state: INIT as nat, statics: Set::<nat>::empty(), store }).cycle(
            word_counter_view(),
            Set::<nat>::empty(),
        ) == (Outcome::<WordCounter> {
            snapshot: Snapshot::<WordCounter> {
                state: OUT_WORD as nat,
                statics: Set::<nat>::empty(),
                store: WordCounter { counter: store.counter, greetings: bump(store.greetings) },
            },
            settled: true,
        }),
{
    reveal_with_fuel(Snapshot::cascade, 3);
    reveal_with_fuel(Snapshot::dispatched_all, 2);
    let table = word_counter_view();
    let events = Set::<nat>::empty();
    let s = Snapshot::<WordCounter> { state: INIT as nat, statics: Set::<nat>::empty(), store };
    assert(tag_set(seq![READ_ALPHANUMERIC]).contains(READ_ALPHANUMERIC as nat)) by {
        assert(seq![READ_ALPHANUMERIC][0] == READ_ALPHANUMERIC);
    }
    assert(!on_event(READ_ALPHANUMERIC).holds(events, s.statics));
    let greeted = s.inputs_done(table, events);
    lemma_inputs_greet(s, events);
    lemma_single_choice(greeted, events);
    let t = table.states[0].transitions[0];
    let next = greeted.taken(table, t);
    assert(t.actions.len() == 0);
    assert(next.state == OUT_WORD);
    lemma_single_choice(next, events);
}

/// Whether a character is alphanumeric, as the standard library judges it.
pub uninterp spec fn alphanumeric(c: char) -> bool;

/// Calls `char::is_alphanumeric` of the standard library. The contract only
/// gives the answer a name: which characters are alphanumeric is decided by
/// the Unicode tables of the standard library and is not restated here.
#[verifier::external_body]
fn is_alphanumeric(c: char) -> (yes: bool)
    ensures
        yes == alphanumeric(c),
{
    c.is_alphanumeric()
}

/// The batch of events that announces one character, given whether the
/// character is alphanumeric.
pub fn character_events(alphanumeric: bool) -> (events: Vec<usize>)
    ensures
        events@ == seq![event_of(alphanumeric)],
{
    let mut events: Vec<usize> = Vec::new();
    if alphanumeric {
        events.push(READ_ALPHANUMERIC);
    } else {
        events.push(READ_OTHER);
    }
    assert(events@ =~= seq![event_of(alphanumeric)]);
    events
}

/// The batch of events that announces the character `c`.
#[allow(non_snake_case)]
pub fn USER_send_char(c: char) -> (events: Vec<usize>)
    ensures
        events@ == seq![event_of(alphanumeric(c))],
{
    character_events(is_alphanumeric(c))
}

/// The word counter as a state machine that is fed characters.
#[derive(Debug)]
pub struct StateMachine {
    engine: Engine<WordCounter>,
}

impl StateMachine {
    /// The machine runs the word counter's table, rests in one of the two
    /// states between which the counter moves, and has no event pending.
    pub closed spec fn wf(&self) -> bool {
        &&& self.engine.wf()
        &&& self.engine.table() == word_counter_view()
        &&& (self.engine.snapshot().state == IN_WORD || self.engine.snapshot().state == OUT_WORD)
    }

    /// The current state.
    pub closed spec fn state(&self) -> nat {
        self.engine.snapshot().state
    }

    /// The counter and the number of greetings.
    pub closed spec fn store(&self) -> WordCounter {
        self.engine.snapshot().store
    }

    /// A machine that has run its first cycle: it is outside a word, has
    /// counted nothing and has greeted once.
    pub fn init() -> (machine: StateMachine)
        ensures
            machine.wf(),
            machine.state() == OUT_WORD,
            machine.store() == (WordCounter { counter: 0, greetings: 1 }),
    {
        let store = WordCounter { counter: 0, greetings: 0 };
        proof {
            lemma_first_cycle(store);
        }
        match Engine::initialize(word_counter_table(), INIT, store) {
            Ok(engine) => StateMachine { engine },
            Err(_) => vstd::pervasive::unreached(),
        }
    }

    /// Announces one character, given whether it is alphanumeric, and runs
    /// the cycle that it triggers.
    pub fn send_class(&mut self, alphanumeric: bool)
        requires
            old(self).wf(),
        ensures
            final(self).wf(),
            final(self).state() == state_after(old(self).state(), alphanumeric),
            final(self).store() == store_after(old(self).state(), old(self).store(), alphanumeric),
    {
        let events = character_events(alphanumeric);
        proof {
            lemma_character_cycle(self.engine.snapshot(), alphanumeric);
            assert(tag_set(events@).contains(event_of(alphanumeric) as nat)) by {
                assert(events@[0] == event_of(alphanumeric));
            }
            assert(below(tag_set(events@), 2));
        }
        let _ = self.engine.post_events(&events);
    }

    /// Announces the character `c` and runs the cycle that it triggers.
    pub fn send_char(&mut self, c: char)
        requires
            old(self).wf(),
        ensures
            final(self).wf(),
            final(self).state() == state_after(old(self).state(), alphanumeric(c)),
            final(self).store() == store_after(
                old(self).state(),
                old(self).store(),
                alphanumeric(c),
            ),
    {
        self.send_class(is_alphanumeric(c));
    }

    /// The number of words counted so far.
    pub fn read_counter(&self) -> (count: u32)
        ensures
            count == self.store().counter,
    {
        let value = self.engine.read(COUNTER);
        value as u32
    }

    /// The number of greetings emitted so far.
    pub fn read_greetings(&self) -> (count: u32)
        ensures
            count == self.store().greetings,
    {
        let value = self.engine.read(GREETINGS);
        value as u32
    }

    /// The current state.
    pub fn current_state(&self) -> (state: usize)
        ensures
            state == self.state(),
    {
        self.engine.current_state()
    }
}

/// The word counter together with the data its actions work on, behind the
/// three operations a driver needs.
#[derive(Debug)]
pub struct RealTimeDatabase {
    machine: StateMachine,
}

impl RealTimeDatabase {
    /// See [`StateMachine::wf`].
    pub closed spec fn wf(&self) -> bool {
        self.machine.wf()
    }

    /// The current state.
    pub closed spec fn state(&self) -> nat {
        self.machine.state()
    }

    /// The counter and the number of greetings.
    pub closed spec fn store(&self) -> WordCounter {
        self.machine.store()
    }

    /// A database whose machine has run its first cycle: it is outside a
    /// word, has counted nothing and has greeted once.
    pub fn init() -> (database: RealTimeDatabase)
        ensures
            database.wf(),
            database.state() == OUT_WORD,
            database.store() == (WordCounter { counter: 0, greetings: 1 }),
    {
        RealTimeDatabase { machine: StateMachine::init() }
    }

    /// The line that the greeting action stands for.
    pub fn print_hello(&self) -> (line: String)
        ensures
            line@ == "Hello world from state machine"@,
    {
        "Hello world from state machine".to_owned()
    }

    /// Announces the character `c` and runs the cycle that it triggers.
    pub fn send_char(&mut self, c: char)
        requires
            old(self).wf(),
        ensures
            final(self).wf(),
            final(self).state() == state_after(old(self).state(), alphanumeric(c)),
            final(self).store() == store_after(
                old(self).state(),
                old(self).store(),
                alphanumeric(c),
            ),
    {
        self.machine.send_char(c);
    }

    /// The number of words counted so far.
    pub fn read_counter(&self) -> (count: u32)
        ensures
            count == self.store().counter,
    {
        self.machine.read_counter()
    }

    /// The number of greetings emitted so far.
    pub fn read_greetings(&self) -> (count: u32)
        ensures
            count == self.store().greetings,
    {
        self.machine.read_greetings()
    }

    /// The current state.
    pub fn current_state(&self) -> (state: usize)
        ensures
            state == self.state(),
    {
        self.machine.current_state()
    }
}

/// Whether a word starts at position `i` of `text`: the character there is
/// alphanumeric and the one before it, if any, is not.
pub open spec fn starts_word(text: Seq<char>, i: int) -> bool {
    alphanumeric(text[i]) && (i == 0 || !alphanumeric(text[i - 1]))
}

/// The number of positions of `text` at which a word starts.
pub open spec fn word_starts(text: Seq<char>) -> nat
    decreases text.len(),
{
    if text.len() == 0 {
        0
    } else {
        word_starts(text.drop_last()) + if starts_word(text, text.len() - 1) {
            1nat
        } else {
            0nat
        }
    }
}

/// `n` as a counter value: the largest value stands for everything above it.
pub open spec fn clipped(n: nat) -> u32 {
    if n <= u32::MAX {
        n as u32
    } else {
        u32::MAX
    }
}

/// Counts the words of `text` by feeding it to the state machine character by
/// character. A word is a longest run of alphanumeric characters.
pub fn word_counter_state_machine(text: &str) -> (count: u32)
    ensures
        count == clipped(word_starts(text@)),
{
    let mut machine = StateMachine::init();
    for c in it: text.chars()
        invariant
            it.seq() == text@,
            machine.wf(),
            machine.store().counter == clipped(word_starts(text@.take(it.index() as int))),
            machine.state() == if it.index() > 0 && alphanumeric(text@[it.index() - 1]) {
                IN_WORD as nat
            } else {
                OUT_WORD as nat
            },
    {
        proof {
            let i = it.index() as int;
            let next = text@.take(i + 1);
            assert(next.drop_last() == text@.take(i));
            assert(next[i] == text@[i]);
            if i > 0 {
                assert(next[i - 1] == text@[i - 1]);
            }
        }
        machine.send_char(c);
    }
    assert(text@.take(text@.len() as int) == text@);
    machine.read_counter()
}

} // verus!
