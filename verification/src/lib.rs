//! A synchronous virtual finite-state-machine engine.
//!
//! Control flow (states, transitions, entry, exit and input actions) is kept
//! apart from data flow: the engine only decides which abstract action tokens
//! fire and in which order, and hands each one to a host-supplied store.
//!
//! * [`signal`]: events, static signals and conditions.
//! * [`table`]: the validated, immutable state table.
//! * [`dispatch`]: what a host's store must provide.
//! * [`model`]: what one resolution cycle does, stated over plain values.
//! * [`engine`]: the engine itself, proved to do what the model says.
//! * [`laws`]: what follows for every table, store and batch of events.
//! * [`recorder`]: a store that logs the actions dispatched to it.
//! * [`word_counter`]: a word counter built on the engine.

pub mod signal;
pub mod table;
pub mod dispatch;
pub mod model;
pub mod engine;
pub mod laws;
pub mod recorder;
pub mod word_counter;
