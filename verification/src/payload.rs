//! Transient event payloads and the access trackers that gate their readers.
//!
//! One [`SystemEventData`] unit holds the payload of one emitted event
//! instance. Consumption is destructive: the first take detaches the value
//! and every later take observes absence. The trackers record whether an
//! invocation is currently running and where its payload lives; the accessors
//! on the world report absence whenever no invocation is in flight.

use vstd::prelude::*;

verus! {

/// Storage for one event instance's payload.
#[derive(Clone, Copy, Debug, PartialEq, Eq, Structural)]
pub struct SystemEventData {
    /// The type id the payload was emitted under.
    pub type_id: u64,
    /// The payload value; `None` once it has been taken.
    pub data: Option<u64>,
}

/// What one destructive read leaves behind: the unit is empty afterwards,
/// whatever it held before.
pub open spec fn spec_take(d: SystemEventData) -> (SystemEventData, Option<u64>) {
    (SystemEventData { type_id: d.type_id, data: None }, d.data)
}

impl SystemEventData {
    /// A fresh unit holding `data` under type `type_id`.
    pub fn new(type_id: u64, data: u64) -> (r: Self)
        ensures
            r == (SystemEventData { type_id, data: Some(data) }),
    {
        SystemEventData { type_id, data: Some(data) }
    }

    /// Detaches and returns the payload; the first call across the unit's
    /// lifetime returns the stored value, every later call returns `None`.
    pub fn take(&mut self) -> (r: Option<u64>)
        ensures
            (*final(self), r) == spec_take(*old(self)),
    {
        let r = self.data;
        self.data = None;
        r
    }
}

/// Tracks whether a payload-carrying invocation is running and where its
/// payload unit lives.
#[derive(Clone, Copy, Debug, PartialEq, Eq, Structural)]
pub struct SystemEventAccessTracker {
    /// True while a reactor invocation with a data payload is running.
    pub currently_reacting: bool,
    /// The entity where the running event's payload is stored.
    pub data_entity: u64,
}

impl SystemEventAccessTracker {
    /// Marks an invocation as running, with its payload stored on
    /// `data_entity`.
    pub fn start(&mut self, data_entity: u64)
        ensures
            *final(self) == (SystemEventAccessTracker { currently_reacting: true, data_entity }),
    {
        self.currently_reacting = true;
        self.data_entity = data_entity;
    }

    /// Marks the invocation as finished and returns the payload entity so it
    /// can be reclaimed.
    pub fn end(&mut self) -> (r: u64)
        ensures
            final(self).currently_reacting == false,
            r == old(self).data_entity,
    {
        self.currently_reacting = false;
        self.data_entity
    }

    /// Whether a payload-carrying invocation is running.
    pub fn is_reacting(&self) -> (r: bool)
        ensures
            r == self.currently_reacting,
    {
        self.currently_reacting
    }

    /// The payload entity of the running (or most recent) event.
    pub fn data_entity(&self) -> (r: u64)
        ensures
            r == self.data_entity,
    {
        self.data_entity
    }
}

impl Default for SystemEventAccessTracker {
    /// At rest: no invocation running.
    fn default() -> (r: Self)
        ensures
            r == (SystemEventAccessTracker { currently_reacting: false, data_entity: 0u64 }),
    {
        SystemEventAccessTracker { currently_reacting: false, data_entity: 0u64 }
    }
}

/// Tracks whether a despawn reactor invocation is running and which entity's
/// destruction it reacts to.
#[derive(Clone, Copy, Debug, PartialEq, Eq, Structural)]
pub struct DespawnAccessTracker {
    /// True while a despawn reactor invocation is running.
    pub currently_reacting: bool,
    /// The entity whose destruction is being reacted to.
    pub reaction_source: u64,
}

impl DespawnAccessTracker {
    /// Marks a despawn invocation as running for `source`.
    pub fn start(&mut self, source: u64)
        ensures
            *final(self) == (DespawnAccessTracker {
                currently_reacting: true,
                reaction_source: source,
            }),
    {
        self.currently_reacting = true;
        self.reaction_source = source;
    }

    /// Marks the despawn invocation as finished.
    pub fn end(&mut self)
        ensures
            final(self).currently_reacting == false,
    {
        self.currently_reacting = false;
    }

    /// Whether a despawn reactor invocation is running.
    pub fn is_reacting(&self) -> (r: bool)
        ensures
            r == self.currently_reacting,
    {
        self.currently_reacting
    }

    /// The source entity of the running (or most recent) despawn reaction.
    pub fn source(&self) -> (r: u64)
        ensures
            r == self.reaction_source,
    {
        self.reaction_source
    }
}

impl Default for DespawnAccessTracker {
    /// At rest: no despawn invocation running.
    fn default() -> (r: Self)
        ensures
            r == (DespawnAccessTracker { currently_reacting: false, reaction_source: 0u64 }),
    {
        DespawnAccessTracker { currently_reacting: false, reaction_source: 0u64 }
    }
}

} // verus!
