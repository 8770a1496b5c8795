//! A reactive event dispatch engine.
//!
//! Callers register *reactors* (identified by plain ids) against trigger
//! descriptors: component insertion, mutation or removal on any or a specific
//! entity, entity destruction, broadcast events and entity-targeted events.
//! Emitting an event queues one invocation of every matched reactor, in
//! registration order; a host drives the invocations one at a time and may
//! emit further events from inside an invocation, which resolve depth-first
//! before the emitter's siblings. Each event carries a transient payload
//! delivered through a single-read accessor, and the payload's backing
//! storage is reclaimed once the event's whole matched set has run.

pub mod autodespawn;
pub mod channel;
pub mod laws;
pub mod maps;
pub mod payload;
pub mod registry;
pub mod trigger;
pub mod world;
