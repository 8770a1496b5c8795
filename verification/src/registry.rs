//! The reaction registry: the single source of truth for which reactors care
//! about which changes.
//!
//! The cache maps each global trigger descriptor to an ordered reactor list,
//! remembers which component types have removal tracking enabled, and owns
//! the notification channel through which despawn-tracking markers report
//! destroyed entities.

use vstd::prelude::*;

use crate::channel::DespawnChannel;
use crate::maps::{IdSet, TriggerMap, ne};
use crate::trigger::ReactorType;

verus! {

/// The process-wide reaction registry.
pub struct ReactCache {
    reactors: TriggerMap,
    tracking: IdSet,
    channel: DespawnChannel,
}

impl ReactCache {
    /// The ordered reactor list registered under `t`.
    pub closed spec fn list(self, t: ReactorType) -> Seq<u64> {
        self.reactors.list(t)
    }

    /// Whether removal tracking is enabled for component type `c`.
    pub closed spec fn tracks(self, c: u64) -> bool {
        self.tracking.has(c)
    }

    /// The queued despawn notifications, oldest first.
    pub closed spec fn queue(self) -> Seq<u64> {
        self.channel.queue()
    }

    /// The underlying tables are well formed.
    pub closed spec fn wf(self) -> bool {
        self.reactors.wf() && self.tracking.wf()
    }

    /// An empty registry: no lists, no tracked types, nothing queued.
    pub fn new() -> (c: Self)
        ensures
            c.wf(),
            forall|t: ReactorType| #[trigger] c.list(t) == Seq::<u64>::empty(),
            forall|x: u64| !(#[trigger] c.tracks(x)),
            c.queue() == Seq::<u64>::empty(),
    {
        ReactCache {
            reactors: TriggerMap::new(),
            tracking: IdSet::new(),
            channel: DespawnChannel::new(),
        }
    }

    /// Appends `h` to the list registered under `t`; every other list, the
    /// tracked set and the queue are unchanged.
    pub fn register(&mut self, t: ReactorType, h: u64)
        requires
            old(self).wf(),
        ensures
            final(self).wf(),
            forall|t2: ReactorType| #[trigger] final(self).list(t2) == if t2 == t {
                old(self).list(t).push(h)
            } else {
                old(self).list(t2)
            },
            forall|x: u64| #[trigger] final(self).tracks(x) == old(self).tracks(x),
            final(self).queue() == old(self).queue(),
    {
        self.reactors.register(t, h);
    }

    /// Removes every entry with handle `id` from the list registered under
    /// `t`, keeping the rest in order; everything else is unchanged. Missing
    /// entries are silently ignored.
    pub fn revoke_entry(&mut self, t: ReactorType, id: u64)
        requires
            old(self).wf(),
        ensures
            final(self).wf(),
            forall|t2: ReactorType| #[trigger] final(self).list(t2) == if t2 == t {
                old(self).list(t).filter(ne(id))
            } else {
                old(self).list(t2)
            },
            forall|x: u64| #[trigger] final(self).tracks(x) == old(self).tracks(x),
            final(self).queue() == old(self).queue(),
    {
        self.reactors.remove_id(t, id);
    }

    /// A copy of the list registered under `t`.
    pub fn get_list(&self, t: ReactorType) -> (r: Vec<u64>)
        ensures
            r@ == self.list(t),
    {
        self.reactors.get_list(t)
    }

    /// Removes and returns the list registered under `t`; everything else is
    /// unchanged.
    pub fn take_list(&mut self, t: ReactorType) -> (r: Vec<u64>)
        requires
            old(self).wf(),
        ensures
            final(self).wf(),
            r@ == old(self).list(t),
            forall|t2: ReactorType| #[trigger] final(self).list(t2) == if t2 == t {
                Seq::<u64>::empty()
            } else {
                old(self).list(t2)
            },
            forall|x: u64| #[trigger] final(self).tracks(x) == old(self).tracks(x),
            final(self).queue() == old(self).queue(),
    {
        self.reactors.take_list(t)
    }

    /// Enables removal tracking for component type `c`, from this point
    /// forward; removals that happened earlier stay unobservable.
    pub fn track_removals(&mut self, c: u64)
        requires
            old(self).wf(),
        ensures
            final(self).wf(),
            forall|x: u64| #[trigger] final(self).tracks(x) == (old(self).tracks(x) || x == c),
            forall|t2: ReactorType| #[trigger] final(self).list(t2) == old(self).list(t2),
            final(self).queue() == old(self).queue(),
    {
        self.tracking.insert(c);
    }

    /// Whether removal tracking is enabled for component type `c`.
    pub fn is_tracked(&self, c: u64) -> (r: bool)
        ensures
            r == self.tracks(c),
    {
        self.tracking.contains(c)
    }

    /// Reports a destroyed entity through the notification channel; called
    /// by the marker hook when a tracked entity is despawned.
    pub fn notify_despawn(&mut self, e: u64)
        requires
            old(self).wf(),
        ensures
            final(self).wf(),
            final(self).queue() == old(self).queue().push(e),
            forall|t2: ReactorType| #[trigger] final(self).list(t2) == old(self).list(t2),
            forall|x: u64| #[trigger] final(self).tracks(x) == old(self).tracks(x),
    {
        self.channel.send(e);
    }

    /// Pops the oldest queued despawn notification, if any; everything else
    /// is unchanged.
    pub fn next_despawn(&mut self) -> (r: Option<u64>)
        requires
            old(self).wf(),
        ensures
            final(self).wf(),
            old(self).queue().len() == 0 ==> r is None && final(self).queue() == old(self).queue(),
            old(self).queue().len() > 0 ==> r == Some(old(self).queue()[0]) && final(self).queue()
                == old(self).queue().drop_first(),
            forall|t2: ReactorType| #[trigger] final(self).list(t2) == old(self).list(t2),
            forall|x: u64| #[trigger] final(self).tracks(x) == old(self).tracks(x),
    {
        self.channel.try_recv()
    }
}

} // verus!
