//! The ends of a sink that its handles share: the queue that they feed, and the two
//! counters.
//!
//! A queue and its counters are reached through the types of this module alone. Each use
//! of them is written down in a history, which says what was done and how often.

use std::sync::atomic::{AtomicU64, Ordering};
use std::sync::Arc;
use tokio::sync::mpsc::{Receiver, Sender};
use vstd::prelude::*;

use crate::packet::HepPacket;
use crate::udp::{
    adds, attempt, bounded_queue, feeds, publishes, queue_bound, reads, refuses, share_queue,
    starts_at, tried, Offered,
};

verus! {

/// The producers' end of a sink: a queue, and the counter of the packets that it has
/// refused.
pub struct Outlet {
    tx: Sender<HepPacket>,
    drops: Arc<AtomicU64>,
}

impl Outlet {
    /// The queue.
    pub closed spec fn queue(&self) -> Sender<HepPacket> {
        self.tx
    }

    /// The counter of refused packets.
    pub closed spec fn drops_counter(&self) -> AtomicU64 {
        *self.drops
    }

    /// Make a queue of the given capacity with a counter at zero, and hand out the end
    /// from which the queue is drained.
    pub(crate) fn open(capacity: usize) -> (ends: (Outlet, Receiver<HepPacket>))
        requires
            0 < capacity <= usize::MAX / 8,
        ensures
            queue_bound(ends.0.queue()) == capacity,
            feeds(ends.0.queue(), ends.1),
            !refuses(ends.1),
            starts_at(ends.0.drops_counter(), 0),
    {
        let (tx, rx) = bounded_queue(capacity);
        (Outlet { tx, drops: Arc::new(AtomicU64::new(0)) }, rx)
    }

    /// The number of refused packets.
    pub(crate) fn drops(&self) -> (n: u64)
        ensures
            reads(self.drops_counter(), n),
    {
        self.drops.load(Ordering::Relaxed)
    }

    /// A use of the outlet in which nothing has been done yet.
    pub(crate) fn producer(&self) -> (producer: Producer<'_>)
        ensures
            producer.outlet() == *self,
            producer.offers() == Seq::<(HepPacket, Offered)>::empty(),
            producer.counts() == Seq::<u64>::empty(),
    {
        Producer { outlet: self, offers: Ghost(Seq::empty()), counts: Ghost(Seq::empty()) }
    }
}

impl Clone for Outlet {
    /// Another handle of the same queue and counter.
    fn clone(&self) -> (copy: Outlet)
        ensures
            copy == *self,
    {
        Outlet { tx: share_queue(&self.tx), drops: Arc::clone(&self.drops) }
    }
}

/// A use of an [`Outlet`], with the history of what was done in it.
pub struct Producer<'a> {
    outlet: &'a Outlet,
    offers: Ghost<Seq<(HepPacket, Offered)>>,
    counts: Ghost<Seq<u64>>,
}

impl<'a> Producer<'a> {
    /// The outlet.
    pub closed spec fn outlet(&self) -> Outlet {
        *self.outlet
    }

    /// The packets that were offered to the queue, and what came of each of them.
    pub closed spec fn offers(&self) -> Seq<(HepPacket, Offered)> {
        self.offers@
    }

    /// What was added to the counter of refused packets, addition by addition.
    pub closed spec fn counts(&self) -> Seq<u64> {
        self.counts@
    }

    /// Offer a packet to the queue.
    pub(crate) fn offer(&mut self, packet: HepPacket) -> (offered: Offered)
        ensures
            tried(old(self).outlet().queue(), packet, offered),
            final(self).outlet() == old(self).outlet(),
            final(self).offers() == old(self).offers().push((packet, offered)),
            final(self).counts() == old(self).counts(),
    {
        let ghost given = packet;
        let offered = attempt(&self.outlet.tx, packet);
        self.offers = Ghost(self.offers@.push((given, offered)));
        offered
    }

    /// Add to the counter of refused packets.
    pub(crate) fn count(&mut self, n: u64)
        ensures
            adds(old(self).outlet().drops_counter(), n),
            final(self).outlet() == old(self).outlet(),
            final(self).offers() == old(self).offers(),
            final(self).counts() == old(self).counts().push(n),
    {
        self.outlet.drops.fetch_add(n, Ordering::Relaxed);
        self.counts = Ghost(self.counts@.push(n));
    }
}

/// The reading end of the counter of sent packets.
pub struct Gauge {
    cell: Arc<AtomicU64>,
}

/// The writing end of the counter of sent packets, with the history of what was written.
pub struct Publisher {
    cell: Arc<AtomicU64>,
    written: Ghost<Seq<u64>>,
}

impl Gauge {
    /// The counter.
    pub closed spec fn counter(&self) -> Arc<AtomicU64> {
        self.cell
    }

    /// The number of sent packets.
    pub(crate) fn read(&self) -> (n: u64)
        ensures
            reads(*self.counter(), n),
    {
        self.cell.load(Ordering::Relaxed)
    }
}

impl Clone for Gauge {
    /// Another reading end of the same counter.
    fn clone(&self) -> (copy: Gauge)
        ensures
            copy == *self,
    {
        Gauge { cell: Arc::clone(&self.cell) }
    }
}

impl Publisher {
    /// The counter.
    pub closed spec fn counter(&self) -> Arc<AtomicU64> {
        self.cell
    }

    /// The values that the counter was set to, in order.
    pub closed spec fn written(&self) -> Seq<u64> {
        self.written@
    }

    /// Make a counter at zero, and hand out both of its ends.
    pub(crate) fn open() -> (ends: (Gauge, Publisher))
        ensures
            starts_at(*ends.0.counter(), 0),
            ends.0.counter() == ends.1.counter(),
            ends.1.written() == Seq::<u64>::empty(),
    {
        let cell = Arc::new(AtomicU64::new(0));
        (Gauge { cell: Arc::clone(&cell) }, Publisher { cell, written: Ghost(Seq::empty()) })
    }

    /// Set the counter.
    pub(crate) fn publish(&mut self, n: u64)
        ensures
            publishes(*old(self).counter(), n),
            final(self).counter() == old(self).counter(),
            final(self).written() == old(self).written().push(n),
    {
        self.cell.store(n, Ordering::Relaxed);
        self.written = Ghost(self.written@.push(n));
    }
}

} // verus!
