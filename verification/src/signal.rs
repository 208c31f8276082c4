//! Signals and conditions.
//!
//! A signal is identified by a tag, a small number below the size of the
//! vocabulary it belongs to. Events and static signals live in two separate
//! vocabularies. A condition is either the wildcard or a conjunction of
//! required event tags and required static-signal tags.

use vstd::prelude::*;

verus! {

/// A set of signal tags drawn from a vocabulary of fixed size.
///
/// The set is stored as one flag per tag; its view is the mathematical set of
/// the tags whose flag is raised.
#[derive(Debug)]
pub struct SignalSet {
    flags: Vec<bool>,
}

impl View for SignalSet {
    type V = Set<nat>;

    closed spec fn view(&self) -> Set<nat> {
        Set::new(|t: nat| t < self.flags.len() && self.flags[t as int])
    }
}

impl SignalSet {
    /// The size of the vocabulary: every member of the set is below it.
    pub closed spec fn capacity(&self) -> nat {
        self.flags.len() as nat
    }

    /// The empty set over a vocabulary of `capacity` tags.
    pub fn new(capacity: usize) -> (set: SignalSet)
        ensures
            set@ == Set::<nat>::empty(),
            set.capacity() == capacity,
    {
        let mut flags: Vec<bool> = Vec::new();
        let mut i: usize = 0;
        while i < capacity
            invariant
                i <= capacity,
                flags.len() == i,
                forall|k: int| 0 <= k < i ==> !flags[k],
            decreases capacity - i,
        {
            flags.push(false);
            i = i + 1;
        }
        let set = SignalSet { flags };
        assert(set@ =~= Set::<nat>::empty());
        set
    }

    /// Whether `tag` is in the set.
    pub fn contains(&self, tag: usize) -> (found: bool)
        ensures
            found == self@.contains(tag as nat),
    {
        tag < self.flags.len() && self.flags[tag]
    }

    /// Adds `tag` if it belongs to the vocabulary and reports whether it does.
    /// A tag outside the vocabulary leaves the set as it was.
    pub fn insert(&mut self, tag: usize) -> (known: bool)
        ensures
            known == (tag < old(self).capacity()),
            final(self).capacity() == old(self).capacity(),
            known ==> final(self)@ == old(self)@.insert(tag as nat),
            !known ==> final(self)@ == old(self)@,
    {
        if tag < self.flags.len() {
            self.flags.set(tag, true);
            assert(self@ =~= old(self)@.insert(tag as nat));
            true
        } else {
            assert(self@ =~= old(self)@);
            false
        }
    }

    /// Removes `tag`; a tag that is not a member leaves the set as it was.
    pub fn remove(&mut self, tag: usize)
        ensures
            final(self).capacity() == old(self).capacity(),
            final(self)@ == old(self)@.remove(tag as nat),
    {
        if tag < self.flags.len() {
            self.flags.set(tag, false);
        }
        assert(self@ =~= old(self)@.remove(tag as nat));
    }

    /// Removes every member and keeps the vocabulary.
    pub fn clear(&mut self)
        ensures
            final(self).capacity() == old(self).capacity(),
            final(self)@ == Set::<nat>::empty(),
    {
        let n: usize = self.flags.len();
        let mut i: usize = 0;
        while i < n
            invariant
                i <= n,
                self.flags.len() == n,
                forall|k: int| 0 <= k < i ==> !self.flags[k],
            decreases n - i,
        {
            self.flags.set(i, false);
            i = i + 1;
        }
        assert(self@ =~= Set::<nat>::empty());
    }

    /// Whether the set has no member.
    pub fn is_empty(&self) -> (empty: bool)
        ensures
            empty == (self@ == Set::<nat>::empty()),
    {
        let n: usize = self.flags.len();
        let mut i: usize = 0;
        while i < n
            invariant
                i <= n,
                n == self.flags.len(),
                forall|k: int| 0 <= k < i ==> !self.flags[k],
            decreases n - i,
        {
            if self.flags[i] {
                assert(self@.contains(i as nat));
                return false;
            }
            i = i + 1;
        }
        assert(self@ =~= Set::<nat>::empty());
        true
    }
}

/// The mathematical set of the tags listed in `tags`.
pub open spec fn tag_set(tags: Seq<usize>) -> Set<nat> {
    Set::new(|t: nat| exists|i: int| 0 <= i < tags.len() && tags[i] as nat == t)
}

/// Whether every member of `tags` is below `bound`.
pub open spec fn below(tags: Set<nat>, bound: nat) -> bool {
    forall|t: nat| tags.contains(t) ==> t < bound
}

/// Whether every tag listed in `required` is a member of `active`.
pub fn all_active(required: &Vec<usize>, active: &SignalSet) -> (all: bool)
    ensures
        all == tag_set(required@).subset_of(active@),
{
    let mut i: usize = 0;
    while i < required.len()
        invariant
            i <= required.len(),
            forall|k: int| 0 <= k < i ==> active@.contains(required@[k] as nat),
        decreases required.len() - i,
    {
        if !active.contains(required[i]) {
            assert(tag_set(required@).contains(required@[i as int] as nat));
            return false;
        }
        i = i + 1;
    }
    true
}

/// Whether every tag listed in `tags` is below `bound`.
pub fn all_below(tags: &Vec<usize>, bound: usize) -> (all: bool)
    ensures
        all == below(tag_set(tags@), bound as nat),
{
    let mut i: usize = 0;
    while i < tags.len()
        invariant
            i <= tags.len(),
            forall|k: int| 0 <= k < i ==> tags@[k] < bound,
        decreases tags.len() - i,
    {
        if tags[i] >= bound {
            assert(tag_set(tags@).contains(tags@[i as int] as nat));
            return false;
        }
        i = i + 1;
    }
    true
}

/// What a condition asks for, as mathematics.
pub enum ConditionView {
    /// Always satisfied.
    Always,
    /// Satisfied when both required sets are included in the active ones.
    All { events: Set<nat>, statics: Set<nat> },
}

impl ConditionView {
    /// Whether the condition is satisfied by the given active sets.
    pub open spec fn holds(self, events: Set<nat>, statics: Set<nat>) -> bool {
        match self {
            ConditionView::Always => true,
            ConditionView::All { events: e, statics: s } => e.subset_of(events) && s.subset_of(
                statics,
            ),
        }
    }

    /// Whether the condition names only tags of vocabularies of the given sizes.
    pub open spec fn declared(self, n_events: nat, n_statics: nat) -> bool {
        match self {
            ConditionView::Always => true,
            ConditionView::All { events: e, statics: s } => {
                &&& below(e, n_events)
                &&& below(s, n_statics)
            },
        }
    }

    /// Whether the condition can be satisfied without any active event.
    pub open spec fn event_free(self) -> bool {
        match self {
            ConditionView::Always => true,
            ConditionView::All { events: e, statics: _ } => e == Set::<nat>::empty(),
        }
    }
}

/// The guard of an input action or of a transition.
#[derive(Debug, Clone)]
pub enum Condition {
    /// The wildcard: satisfied whatever is active.
    Always,
    /// A conjunction: every listed event and every listed static signal must
    /// be active. Order and repetition in the lists have no meaning.
    All { events: Vec<usize>, statics: Vec<usize> },
}

impl View for Condition {
    type V = ConditionView;

    open spec fn view(&self) -> ConditionView {
        match self {
            Condition::Always => ConditionView::Always,
            Condition::All { events, statics } => ConditionView::All {
                events: tag_set(events@),
                statics: tag_set(statics@),
            },
        }
    }
}

impl Condition {
    /// Whether the condition is satisfied by the active events and the active
    /// static signals.
    pub fn satisfied(&self, events: &SignalSet, statics: &SignalSet) -> (yes: bool)
        ensures
            yes == self@.holds(events@, statics@),
    {
        match self {
            Condition::Always => true,
            Condition::All { events: e, statics: s } => all_active(e, events) && all_active(
                s,
                statics,
            ),
        }
    }

    /// Whether the condition names only declared tags.
    pub fn is_declared(&self, n_events: usize, n_statics: usize) -> (yes: bool)
        ensures
            yes == self@.declared(n_events as nat, n_statics as nat),
    {
        match self {
            Condition::Always => true,
            Condition::All { events: e, statics: s } => {
                let events_ok = all_below(e, n_events);
                let statics_ok = all_below(s, n_statics);
                events_ok && statics_ok
            },
        }
    }
}

/// How long a signal lives.
#[derive(Debug, Clone, Copy, PartialEq, Eq, Structural)]
pub enum SignalKind {
    /// A one-time signal: spent on the first transition of the cycle in
    /// which it was posted, and gone when that cycle ends.
    Event,
    /// A persistent signal: active until a dispatched action lowers it.
    StaticSignal,
}

/// A signal: a tag together with the vocabulary it belongs to.
#[derive(Debug, Clone, Copy, PartialEq, Eq, Structural)]
pub enum Signal {
    Event(usize),
    StaticSignal(usize),
}

impl Signal {
    /// The kind of the signal.
    pub open spec fn spec_kind(self) -> SignalKind {
        match self {
            Signal::Event(_) => SignalKind::Event,
            Signal::StaticSignal(_) => SignalKind::StaticSignal,
        }
    }

    /// The tag of the signal within its vocabulary.
    pub open spec fn spec_tag(self) -> usize {
        match self {
            Signal::Event(tag) => tag,
            Signal::StaticSignal(tag) => tag,
        }
    }

    /// The kind of the signal.
    #[verifier::when_used_as_spec(spec_kind)]
    pub fn kind(self) -> (kind: SignalKind)
        ensures
            kind == self.spec_kind(),
    {
        match self {
            Signal::Event(_) => SignalKind::Event,
            Signal::StaticSignal(_) => SignalKind::StaticSignal,
        }
    }

    /// The tag of the signal within its vocabulary.
    #[verifier::when_used_as_spec(spec_tag)]
    pub fn tag(self) -> (tag: usize)
        ensures
            tag == self.spec_tag(),
    {
        match self {
            Signal::Event(tag) => tag,
            Signal::StaticSignal(tag) => tag,
        }
    }
}

/// The tags of the signals of the given kind that are listed in `signals`.
pub open spec fn tags_of(signals: Seq<Signal>, kind: SignalKind) -> Set<nat> {
    Set::new(
        |t: nat|
            exists|i: int|
                0 <= i < signals.len() && signals[i].spec_kind() == kind && signals[i].spec_tag()
                    as nat == t,
    )
}

impl Condition {
    /// The conjunction that asks for every signal listed in `signals`, each
    /// in its own vocabulary.
    pub fn requiring(signals: &Vec<Signal>) -> (condition: Condition)
        ensures
            condition@ == (ConditionView::All {
                events: tags_of(signals@, SignalKind::Event),
                statics: tags_of(signals@, SignalKind::StaticSignal),
            }),
    {
        let mut events: Vec<usize> = Vec::new();
        let mut statics: Vec<usize> = Vec::new();
        let mut i: usize = 0;
        while i < signals.len()
            invariant
                i <= signals.len(),
                tag_set(events@) =~= tags_of(signals@.take(i as int), SignalKind::Event),
                tag_set(statics@) =~= tags_of(signals@.take(i as int), SignalKind::StaticSignal),
            decreases signals.len() - i,
        {
            let ghost before = signals@.take(i as int);
            let ghost after = signals@.take(i + 1);
            let ghost old_events = events@;
            let ghost old_statics = statics@;
            let signal = signals[i];
            match signal {
                Signal::Event(tag) => {
                    events.push(tag);
                },
                Signal::StaticSignal(tag) => {
                    statics.push(tag);
                },
            }
            proof {
                assert(after.drop_last() == before);
                assert(after[i as int] == signal);
                assert forall|kind: SignalKind, t: nat|
                    tags_of(after, kind).contains(t) <==> (tags_of(before, kind).contains(t) || (
                    signal.spec_kind() == kind && signal.spec_tag() as nat == t)) by {
                    if tags_of(after, kind).contains(t) {
                        let k = choose|k: int|
                            0 <= k < after.len() && after[k].spec_kind() == kind
                                && after[k].spec_tag() as nat == t;
                        if k < i {
                            assert(before[k] == after[k]);
                        }
                    }
                    if tags_of(before, kind).contains(t) {
                        let k = choose|k: int|
                            0 <= k < before.len() && before[k].spec_kind() == kind
                                && before[k].spec_tag() as nat == t;
                        assert(after[k] == before[k]);
                    }
                }
                lemma_tag_set_push(old_events, signal.spec_tag());
                lemma_tag_set_push(old_statics, signal.spec_tag());
            }
            i = i + 1;
        }
        assert(signals@.take(signals@.len() as int) == signals@);
        Condition::All { events, statics }
    }
}

/// Listing one more tag adds that tag to the set of the tags listed.
pub proof fn lemma_tag_set_push(tags: Seq<usize>, tag: usize)
    ensures
        tag_set(tags.push(tag)) == tag_set(tags).insert(tag as nat),
{
    let longer = tags.push(tag);
    assert forall|t: nat| tag_set(longer).contains(t) <==> tag_set(tags).insert(
        tag as nat,
    ).contains(t) by {
        if tag_set(longer).contains(t) {
            let k = choose|k: int| 0 <= k < longer.len() && longer[k] as nat == t;
            if k < tags.len() {
                assert(tags[k] as nat == t);
            }
        }
        if tag_set(tags).contains(t) {
            let k = choose|k: int| 0 <= k < tags.len() && tags[k] as nat == t;
            assert(longer[k] as nat == t);
        }
        if t == tag as nat {
            assert(longer[tags.len() as int] as nat == t);
        }
    }
    assert(tag_set(longer) =~= tag_set(tags).insert(tag as nat));
}

} // verus!
