//! The boundary between the engine and its host.
//!
//! The engine never knows what an action means. Whenever one fires, the engine
//! hands its token to the host's store, which carries out the effect on its own
//! data and may ask for one static signal to be raised or lowered.

use vstd::prelude::*;

verus! {

/// What a dispatched action asks of the static signals.
#[derive(Debug, Clone, Copy, PartialEq, Eq, Structural)]
pub enum SignalUpdate {
    /// Leave them as they are.
    Keep,
    /// Activate the signal with this tag.
    Raise(usize),
    /// Deactivate the signal with this tag.
    Lower(usize),
}

/// The static signals after `update`, over a vocabulary of `capacity` tags.
/// Raising a tag outside the vocabulary changes nothing.
pub open spec fn updated(statics: Set<nat>, update: SignalUpdate, capacity: nat) -> Set<nat> {
    match update {
        SignalUpdate::Keep => statics,
        SignalUpdate::Raise(tag) => if tag < capacity {
            statics.insert(tag as nat)
        } else {
            statics
        },
        SignalUpdate::Lower(tag) => statics.remove(tag as nat),
    }
}

/// A host's data store together with the meaning it gives to action tokens.
///
/// The store is described by its view. The three spec functions say, over
/// views, what dispatching and reading do; the two executable methods must do
/// exactly that. The engine is proved against the spec functions, so what is
/// proved of it holds for every store that implements this trait.
pub trait Dispatch: View {
    /// The store after `action` has been carried out on `store`.
    spec fn after(store: Self::V, action: u64) -> Self::V;

    /// What carrying out `action` on `store` asks of the static signals.
    spec fn update(store: Self::V, action: u64) -> SignalUpdate;

    /// The value that reading `token` observes in `store`.
    spec fn shown(store: Self::V, token: u64) -> u64;

    /// Carries out `action`.
    fn dispatch(&mut self, action: u64) -> (update: SignalUpdate)
        ensures
            final(self)@ == Self::after(old(self)@, action),
            update == Self::update(old(self)@, action),
    ;

    /// Observes the store through `token`, without changing it.
    fn read(&self, token: u64) -> (value: u64)
        ensures
            value == Self::shown(self@, token),
    ;
}

} // verus!
