//! The despawn notification channel.
//!
//! Despawn-tracking markers report the identity of a destroyed entity
//! through a FIFO channel that the registry drains. The channel itself is
//! crossbeam's unbounded channel. Both endpoints are held together in one
//! opaque owned pair — nothing else can hold or clone an endpoint — so every
//! send and receive goes through an exclusive borrow and the queue's
//! contents are a function of the operations applied to the pair. Verus
//! cannot declare the two endpoints separately with a sound contract (the
//! queue they share is a function of neither endpoint alone), so the pair is
//! held in a struct opaque to Verus and its contents are given a name.
//!
//! Trusted: the three wrappers below and the name [`channel_queue`].

use vstd::prelude::*;

verus! {

/// The entity ids sitting in the channel pair `c`, oldest first.
pub uninterp spec fn channel_queue(c: DespawnChannel) -> Seq<u64>;

/// An owned notification channel: both endpoints of one unbounded crossbeam
/// channel.
#[verifier::external_body]
pub struct DespawnChannel {
    tx: crossbeam::channel::Sender<u64>,
    rx: crossbeam::channel::Receiver<u64>,
}

impl DespawnChannel {
    /// The queued entity ids, oldest first.
    pub open spec fn queue(self) -> Seq<u64> {
        channel_queue(self)
    }

    /// Relies on crossbeam's `unbounded`: creates a connected channel pair
    /// with nothing queued.
    #[verifier::external_body]
    pub fn new() -> (c: Self)
        ensures
            channel_queue(c) == Seq::<u64>::empty(),
    {
        let (tx, rx) = crossbeam::channel::unbounded();
        DespawnChannel { tx, rx }
    }

    /// Relies on crossbeam's `Sender::send`: on an unbounded channel it
    /// appends the message without blocking, and it cannot fail while the
    /// receiver (held in this same pair) is alive.
    #[verifier::external_body]
    pub fn send(&mut self, e: u64)
        ensures
            channel_queue(*final(self)) == channel_queue(*old(self)).push(e),
    {
        let _ = self.tx.send(e);
    }

    /// Relies on crossbeam's `Receiver::try_recv`: returns the oldest queued
    /// message, or nothing when the queue is empty, without blocking.
    #[verifier::external_body]
    pub fn try_recv(&mut self) -> (r: Option<u64>)
        ensures
            old(self).queue().len() == 0 ==> r is None && channel_queue(*final(self)) == old(
                self,
            ).queue(),
            old(self).queue().len() > 0 ==> r == Some(old(self).queue()[0]) && channel_queue(
                *final(self),
            ) == old(self).queue().drop_first(),
    {
        match self.rx.try_recv() {
            Ok(e) => Some(e),
            Err(_) => None,
        }
    }
}

} // verus!
