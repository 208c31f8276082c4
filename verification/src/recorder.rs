//! A ready-made store that keeps a log of every action dispatched to it, in
//! order, and lets chosen actions raise or lower a static signal.
//!
//! It gives a host a trace of what the engine did without the engine knowing
//! about tracing, and it is enough of a store for tables whose only data are
//! counts of how often something happened.

use vstd::prelude::*;
use crate::dispatch::{Dispatch, SignalUpdate};

verus! {

/// What dispatching `action` asks of the static signals.
#[derive(Debug, Clone, Copy, PartialEq, Eq, Structural)]
pub struct Rule {
    pub action: u64,
    pub update: SignalUpdate,
}

/// What the first rule for `action` asks; nothing if there is no rule for it.
pub open spec fn rule_for(rules: Seq<Rule>, action: u64) -> SignalUpdate
    decreases rules.len(),
{
    if rules.len() == 0 {
        SignalUpdate::Keep
    } else if rules[0].action == action {
        rules[0].update
    } else {
        rule_for(rules.drop_first(), action)
    }
}

/// How often `token` occurs in `log`.
pub open spec fn occurrences(log: Seq<u64>, token: u64) -> nat
    decreases log.len(),
{
    if log.len() == 0 {
        0
    } else {
        occurrences(log.drop_last(), token) + if log.last() == token {
            1nat
        } else {
            0nat
        }
    }
}

/// A store that logs.
#[derive(Debug)]
pub struct Recorder {
    rules: Vec<Rule>,
    log: Vec<u64>,
}

/// A recorder as mathematics: its rules and its log.
pub struct RecorderView {
    pub rules: Seq<Rule>,
    pub log: Seq<u64>,
}

impl View for Recorder {
    type V = RecorderView;

    closed spec fn view(&self) -> RecorderView {
        RecorderView { rules: self.rules@, log: self.log@ }
    }
}

impl Recorder {
    /// A recorder with an empty log. Of several rules for one action the
    /// first counts.
    pub fn new(rules: Vec<Rule>) -> (recorder: Recorder)
        ensures
            recorder@ == (RecorderView { rules: rules@, log: Seq::<u64>::empty() }),
    {
        Recorder { rules, log: Vec::new() }
    }

    /// The actions dispatched so far, oldest first.
    pub fn log(&self) -> (log: &Vec<u64>)
        ensures
            log@ == self@.log,
    {
        &self.log
    }

    /// What dispatching `action` asks of the static signals.
    pub fn rule(&self, action: u64) -> (update: SignalUpdate)
        ensures
            update == rule_for(self@.rules, action),
    {
        let mut i: usize = 0;
        assert(self.rules@.skip(0) == self.rules@);
        while i < self.rules.len()
            invariant
                i <= self.rules.len(),
                rule_for(self.rules@, action) == rule_for(self.rules@.skip(i as int), action),
            decreases self.rules.len() - i,
        {
            assert(self.rules@.skip(i as int)[0] == self.rules@[i as int]);
            assert(self.rules@.skip(i as int).drop_first() == self.rules@.skip(i + 1));
            if self.rules[i].action == action {
                return self.rules[i].update;
            }
            i = i + 1;
        }
        assert(self.rules@.skip(self.rules@.len() as int).len() == 0);
        SignalUpdate::Keep
    }

    /// How often `token` has been dispatched so far.
    pub fn count(&self, token: u64) -> (n: usize)
        ensures
            n == occurrences(self@.log, token),
    {
        let mut n: usize = 0;
        let mut i: usize = 0;
        while i < self.log.len()
            invariant
                i <= self.log.len(),
                n <= i,
                n == occurrences(self.log@.take(i as int), token),
            decreases self.log.len() - i,
        {
            proof {
                let next = self.log@.take(i + 1);
                assert(next.drop_last() == self.log@.take(i as int));
                assert(next.last() == self.log@[i as int]);
            }
            if self.log[i] == token {
                n = n + 1;
            }
            i = i + 1;
        }
        assert(self.log@.take(self.log@.len() as int) == self.log@);
        n
    }
}

impl Dispatch for Recorder {
    open spec fn after(store: RecorderView, action: u64) -> RecorderView {
        RecorderView { rules: store.rules, log: store.log.push(action) }
    }

    open spec fn update(store: RecorderView, action: u64) -> SignalUpdate {
        rule_for(store.rules, action)
    }

    open spec fn shown(store: RecorderView, token: u64) -> u64 {
        occurrences(store.log, token) as u64
    }

    fn dispatch(&mut self, action: u64) -> (update: SignalUpdate) {
        let update = self.rule(action);
        self.log.push(action);
        update
    }

    fn read(&self, token: u64) -> (value: u64) {
        self.count(token) as u64
    }
}

} // verus!
