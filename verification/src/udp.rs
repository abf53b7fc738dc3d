//! Non-blocking UDP transport for [`HepSink`].
//!
//! * The producer calls [`UdpHepSink::send`], a single attempt to put the packet
//!   into a bounded queue: constant time, no encoding, no I/O. When the queue is
//!   full or closed, a drop counter ticks and the call returns.
//! * A worker drains the queue, encodes each packet and sends it to the collector.
//!   [`UdpHepWorker`] holds the worker's end and decides what to do next; whoever
//!   owns the socket and the clock does it and reports back.
//! * If the collector is unreachable, the worker warns once per throttle period
//!   and keeps going. There is no retry queue: HEP is observability, so dropping a
//!   few packets is preferable to head-of-line blocking.

use std::sync::atomic::{AtomicU64, Ordering};
use std::sync::Arc;
use tokio::sync::mpsc::{Receiver, Sender};
use tokio::sync::Notify;
use vstd::prelude::*;

use crate::addr::SocketAddr;
use crate::outlet::{Gauge, Outlet, Producer, Publisher};
use crate::packet::HepPacket;
use crate::sink::HepSink;
use crate::worker::{
    law_no_success_without_a_packet, law_sent_counts_successes, outcomes_follow_packets, receptions,
    successes, WorkerAction, WorkerEvent, WorkerState,
};

verus! {

/// The sending half of tokio's bounded queue.
#[verifier::external_type_specification]
#[verifier::external_body]
#[verifier::reject_recursive_types(T)]
pub struct ExSender<T>(tokio::sync::mpsc::Sender<T>);

/// The receiving half of tokio's bounded queue.
#[verifier::external_type_specification]
#[verifier::external_body]
#[verifier::reject_recursive_types(T)]
pub struct ExReceiver<T>(tokio::sync::mpsc::Receiver<T>);

/// tokio's notification of one task.
#[verifier::external_type_specification]
#[verifier::external_body]
pub struct ExNotify(tokio::sync::Notify);

/// The operating system's error.
#[verifier::external_type_specification]
#[verifier::external_body]
pub struct ExIoError(std::io::Error);

/// How many packets the queue behind a sending half can hold.
pub uninterp spec fn queue_bound(tx: Sender<HepPacket>) -> nat;

/// Whether what a sending half accepts comes out of a receiving half.
pub uninterp spec fn feeds(tx: Sender<HepPacket>, rx: Receiver<HepPacket>) -> bool;

/// Whether the receiving half was closed, so that the queue refuses all packets.
pub uninterp spec fn refuses(rx: Receiver<HepPacket>) -> bool;

/// `tokio::sync::mpsc::channel` makes a queue that holds up to `capacity` packets,
/// and hands out its two halves. The queue is open. The call panics if `capacity`
/// is zero or more than an eighth of `usize::MAX`, the limit of tokio's semaphore.
#[verifier::external_body]
pub(crate) fn bounded_queue(capacity: usize) -> (halves: (Sender<HepPacket>, Receiver<HepPacket>))
    requires
        0 < capacity <= usize::MAX / 8,
    ensures
        queue_bound(halves.0) == capacity,
        feeds(halves.0, halves.1),
        !refuses(halves.1),
{
    tokio::sync::mpsc::channel(capacity)
}

/// `tokio::sync::mpsc::Sender::clone` makes another handle of the same queue.
#[verifier::external_body]
pub(crate) fn share_queue(tx: &Sender<HepPacket>) -> (copy: Sender<HepPacket>)
    ensures
        copy == *tx,
{
    tx.clone()
}

/// What came of the attempt to put a packet into a queue.
#[derive(Debug, Clone, PartialEq, Eq)]
pub enum Offered {
    /// The packet is in the queue.
    Queued,
    /// The queue was full. Here is the packet.
    QueueFull(HepPacket),
    /// The queue was closed. Here is the packet.
    QueueClosed(HepPacket),
}

/// `tokio::sync::mpsc::Sender::try_send` puts the packet into the queue, or hands
/// it back if the queue is full or closed. Which of the three happens depends on
/// the other handles of the queue and is left open.
#[verifier::external_body]
fn offer(tx: &Sender<HepPacket>, packet: HepPacket) -> (offered: Offered)
    ensures
        offered matches Offered::QueueFull(back) ==> back == packet,
        offered matches Offered::QueueClosed(back) ==> back == packet,
{
    match tx.try_send(packet) {
        Ok(()) => Offered::Queued,
        Err(tokio::sync::mpsc::error::TrySendError::Full(back)) => Offered::QueueFull(back),
        Err(tokio::sync::mpsc::error::TrySendError::Closed(back)) => Offered::QueueClosed(back),
    }
}

/// `tokio::sync::mpsc::Receiver::close` closes the receiving half for good. It
/// stays the receiving half of the same queue, so that the backlog can be drained.
#[verifier::external_body]
fn close_queue(rx: &mut Receiver<HepPacket>)
    ensures
        refuses(*final(rx)),
        forall|tx: Sender<HepPacket>| feeds(tx, *final(rx)) == feeds(tx, *old(rx)),
{
    rx.close()
}

/// `tokio::sync::Notify::new` makes a notification that nobody has sent yet.
pub assume_specification[ Notify::new ]() -> Notify;

/// `tokio::sync::Notify::notify_one` wakes the task that waits for the
/// notification, or the next one that will.
pub assume_specification[ Notify::notify_one ](notify: &Notify);

/// Default size of the queue between producer and worker. 256 fits hundreds of
/// milliseconds of SIP signaling at the high end and a few RTCP cycles' worth of
/// QoS reports. Tune via [`UdpHepSinkConfig`].
pub const DEFAULT_QUEUE_CAPACITY: usize = 256;

/// Default time between two warnings, in nanoseconds: a minute.
pub const DEFAULT_WARN_THROTTLE: u128 = 60_000_000_000;

/// Operational knobs for [`UdpHepSink`].
#[derive(Debug, Clone)]
pub struct UdpHepSinkConfig {
    /// Where Homer/HEPlify-Server is listening.
    pub collector: SocketAddr,
    /// Bounded queue capacity between producer and worker. When the queue is full,
    /// a packet is dropped and [`UdpHepSink::drops`] ticks.
    pub queue_capacity: usize,
    /// How often to log a single "collector unreachable" warning when sends are
    /// failing, in nanoseconds. Stops the log from drowning the daemon during an
    /// outage of the collector.
    pub warn_throttle: u128,
}

impl UdpHepSinkConfig {
    /// Whether a queue of the configured capacity can be made.
    pub open spec fn spec_is_valid(&self) -> bool {
        0 < self.queue_capacity <= usize::MAX / 8
    }

    /// The local address for a socket that sends to the collector: any address of
    /// the collector's family, and a port that the operating system picks.
    pub open spec fn spec_bind_addr(&self) -> SocketAddr {
        match self.collector {
            SocketAddr::V4 { .. } => SocketAddr::V4 { octets: [0, 0, 0, 0], port: 0 },
            SocketAddr::V6 { .. } => SocketAddr::V6 {
                octets: [0, 0, 0, 0, 0, 0, 0, 0, 0, 0, 0, 0, 0, 0, 0, 0],
                port: 0,
                flowinfo: 0,
                scope_id: 0,
            },
        }
    }

    /// Build a config with the collector set and everything else at sensible
    /// defaults.
    pub fn new(collector: SocketAddr) -> (cfg: UdpHepSinkConfig)
        ensures
            cfg == (UdpHepSinkConfig {
                collector,
                queue_capacity: DEFAULT_QUEUE_CAPACITY,
                warn_throttle: DEFAULT_WARN_THROTTLE,
            }),
            cfg.is_valid(),
            cfg.queue_capacity == 256,
            cfg.warn_throttle == 60_000_000_000,
    {
        UdpHepSinkConfig {
            collector,
            queue_capacity: DEFAULT_QUEUE_CAPACITY,
            warn_throttle: DEFAULT_WARN_THROTTLE,
        }
    }

    /// Whether a queue of the configured capacity can be made: the capacity is
    /// neither zero nor beyond what a queue can count.
    #[verifier::when_used_as_spec(spec_is_valid)]
    pub fn is_valid(&self) -> (valid: bool)
        ensures
            valid == self.spec_is_valid(),
    {
        0 < self.queue_capacity && self.queue_capacity <= usize::MAX / 8
    }

    /// Where to bind the local socket: to any address of the collector's family,
    /// and to a port that the operating system picks. Collectors do not care which
    /// source port is used.
    #[verifier::when_used_as_spec(spec_bind_addr)]
    pub fn bind_addr(&self) -> (addr: SocketAddr)
        ensures
            addr == self.spec_bind_addr(),
    {
        match self.collector {
            SocketAddr::V4 { .. } => SocketAddr::V4 { octets: [0, 0, 0, 0], port: 0 },
            SocketAddr::V6 { .. } => SocketAddr::V6 {
                octets: [0, 0, 0, 0, 0, 0, 0, 0, 0, 0, 0, 0, 0, 0, 0, 0],
                port: 0,
                flowinfo: 0,
                scope_id: 0,
            },
        }
    }
}

/// A queue can have any capacity from one to an eighth of what `usize` holds. The local
/// socket is bound to an address of the family of the collector, with all octets zero, and
/// to port zero.
pub proof fn law_config(cfg: UdpHepSinkConfig)
    ensures
        cfg.is_valid() <==> 1 <= cfg.queue_capacity && cfg.queue_capacity * 8 <= usize::MAX,
        cfg.bind_addr() is V4 <==> cfg.collector is V4,
        cfg.bind_addr() is V6 <==> cfg.collector is V6,
        cfg.bind_addr() matches SocketAddr::V4 { octets, port } ==> port == 0 && forall|i: int|
            0 <= i < 4 ==> (#[trigger] octets@[i]) == 0,
        cfg.bind_addr() matches SocketAddr::V6 { octets, port, flowinfo, scope_id } ==> port == 0
            && flowinfo == 0 && scope_id == 0 && forall|i: int|
            0 <= i < 16 ==> (#[trigger] octets@[i]) == 0,
{
}

/// Errors from starting a [`UdpHepSink`]. The producer-side `send` is infallible:
/// every drop happens silently and bumps the counter.
#[derive(Debug)]
pub enum UdpHepSinkError {
    /// Failed to create, bind or connect the local UDP socket.
    Bind(std::io::Error),
}

impl From<std::io::Error> for UdpHepSinkError {
    fn from(error: std::io::Error) -> (wrapped: UdpHepSinkError) {
        UdpHepSinkError::Bind(error)
    }
}

impl vstd::std_specs::convert::FromSpecImpl<std::io::Error> for UdpHepSinkError {
    open spec fn obeys_from_spec() -> bool {
        true
    }

    open spec fn from_spec(error: std::io::Error) -> UdpHepSinkError {
        UdpHepSinkError::Bind(error)
    }
}

/// How many packets an attempt to queue one has dropped.
pub open spec fn drops_of(offered: Offered) -> nat {
    match offered {
        Offered::Queued => 0,
        Offered::QueueFull(_) => 1,
        Offered::QueueClosed(_) => 1,
    }
}

impl Offered {
    /// By how much the attempt moves the drop counter: a packet that is not in the
    /// queue is a drop, whether the queue was full or closed.
    pub fn drops(&self) -> (n: u64)
        ensures
            n == drops_of(*self),
            n == (if *self == Offered::Queued {
                0u64
            } else {
                1u64
            }),
    {
        match self {
            Offered::Queued => 0,
            Offered::QueueFull(_) => 1,
            Offered::QueueClosed(_) => 1,
        }
    }
}

/// Whether `n` is a result of `AtomicU64::load` on a counter, with relaxed
/// ordering. Which one depends on what the other holders of the counter have done
/// by then, and is left open.
pub open spec fn reads(counter: AtomicU64, n: u64) -> bool {
    call_ensures(AtomicU64::load, (&counter, Ordering::Relaxed), n)
}

/// What is known of a counter that a call of `AtomicU64::new` has made with `n` in it.
pub open spec fn starts_at(counter: AtomicU64, n: u64) -> bool {
    call_ensures(AtomicU64::new, (n,), counter)
}

/// What is known once a call of `AtomicU64::fetch_add` has added `n` to a counter, with
/// relaxed ordering: it gave some result. Which one, the value before, is left open.
pub open spec fn adds(counter: AtomicU64, n: u64) -> bool {
    exists|before: u64| #[trigger]
        call_ensures(AtomicU64::fetch_add, (&counter, n, Ordering::Relaxed), before)
}

/// What is known once a call of `AtomicU64::store` has set a counter to `n`, with
/// relaxed ordering.
pub open spec fn publishes(counter: AtomicU64, n: u64) -> bool {
    call_ensures(AtomicU64::store, (&counter, n, Ordering::Relaxed), ())
}

/// What is known once a call of `Notify::notify_one` has given a signal.
pub open spec fn signals(signal: Notify) -> bool {
    call_ensures(Notify::notify_one, (&signal,), ())
}

/// Whether the attempt to put a packet into a queue came out as `offered`.
pub closed spec fn tried(tx: Sender<HepPacket>, packet: HepPacket, offered: Offered) -> bool {
    call_ensures(offer, (&tx, packet), offered)
}

/// Try once to put a packet into a queue.
pub(crate) fn attempt(tx: &Sender<HepPacket>, packet: HepPacket) -> (offered: Offered)
    ensures
        tried(*tx, packet, offered),
{
    offer(tx, packet)
}

/// A [`HepSink`] that ships HEP3 packets over UDP. The handle can be cloned and
/// shared liberally: all clones feed one queue and share its counters.
pub struct UdpHepSink {
    outlet: Outlet,
    sent: Gauge,
    shutdown: Arc<Notify>,
}

/// The worker's end of a [`UdpHepSink`].
pub struct UdpHepWorker {
    /// Where the packets come from.
    pub queue: Receiver<HepPacket>,
    /// Where a shutdown request comes from.
    pub shutdown: Arc<Notify>,
    /// Where the number of sent packets is published.
    pub sent: Publisher,
    /// What the worker keeps between two events.
    pub state: WorkerState,
}

impl UdpHepSink {
    /// The queue that the sink feeds.
    pub closed spec fn queue(&self) -> Sender<HepPacket> {
        self.outlet.queue()
    }

    /// The counter of dropped packets.
    pub closed spec fn drops_counter(&self) -> AtomicU64 {
        self.outlet.drops_counter()
    }

    /// The counter of sent packets.
    pub closed spec fn sent_counter(&self) -> Arc<AtomicU64> {
        self.sent.counter()
    }

    /// The signal that requests a shutdown.
    pub closed spec fn shutdown_signal(&self) -> Arc<Notify> {
        self.shutdown
    }

    /// Whether a packet was offered to the queue, came out as `offered`, and the drop
    /// counter was moved by what that is worth: one for a refused packet, and nothing
    /// for a queued one. That was all that was done in that use of the outlet.
    pub open spec fn sends(&self, packet: HepPacket, offered: Offered) -> bool {
        &&& tried(self.queue(), packet, offered)
        &&& adds(self.drops_counter(), drops_of(offered) as u64)
        &&& exists|before: Producer, after: Producer|
            {
                &&& before.outlet().queue() == self.queue()
                &&& before.outlet().drops_counter() == self.drops_counter()
                &&& before.offers().len() == 0
                &&& before.counts().len() == 0
                &&& #[trigger] before.moves_to(packet, offered, after)
            }
    }

    /// Make a sink and the worker's end of it: a queue of the configured capacity,
    /// and two counters at zero.
    pub fn open(cfg: &UdpHepSinkConfig) -> (ends: (UdpHepSink, UdpHepWorker))
        requires
            cfg.is_valid(),
        ensures
            queue_bound(ends.0.queue()) == cfg.queue_capacity,
            feeds(ends.0.queue(), ends.1.queue),
            !refuses(ends.1.queue),
            starts_at(ends.0.drops_counter(), 0),
            starts_at(*ends.0.sent_counter(), 0),
            ends.0.sent_counter() == ends.1.sent.counter(),
            ends.1.sent.written() == Seq::<u64>::empty(),
            ends.0.shutdown_signal() == ends.1.shutdown,
            ends.1.state == (WorkerState {
                sent: 0,
                last_warn: None,
                warn_throttle: cfg.warn_throttle,
                draining: false,
            }),
    {
        let (outlet, queue) = Outlet::open(cfg.queue_capacity);
        let (sent, publisher) = Publisher::open();
        let shutdown = Arc::new(Notify::new());
        let worker = UdpHepWorker {
            queue,
            shutdown: Arc::clone(&shutdown),
            sent: publisher,
            state: WorkerState::new(cfg.warn_throttle),
        };
        (UdpHepSink { outlet, sent, shutdown }, worker)
    }

    /// Number of packets the producer side has dropped because the queue was full
    /// or closed. Monotonic: read at any time, take a difference for a rate.
    pub fn drops(&self) -> (n: u64)
        ensures
            reads(self.drops_counter(), n),
    {
        self.outlet.drops()
    }

    /// Number of packets the worker has successfully sent. Counts wire-level
    /// success only: a packet that a downstream NAT black-holes still counts here.
    pub fn sent(&self) -> (n: u64)
        ensures
            reads(*self.sent_counter(), n),
    {
        self.sent.read()
    }

    /// Ask the worker to refuse further packets, to send those that are queued, and
    /// to exit. Unlike dropping the sink, this also works while clones of the sink
    /// are alive.
    pub fn shutdown(&self)
        ensures
            signals(*self.shutdown_signal()),
    {
        self.shutdown.notify_one();
    }
}

impl Clone for UdpHepSink {
    /// Another handle of the same queue, counters and shutdown signal.
    fn clone(&self) -> (copy: UdpHepSink)
        ensures
            copy == *self,
    {
        UdpHepSink {
            outlet: self.outlet.clone(),
            sent: self.sent.clone(),
            shutdown: Arc::clone(&self.shutdown),
        }
    }
}

impl<'a> Producer<'a> {
    /// Whether `next` is what a producer is after a packet was sent and came out as
    /// `offered`: one more attempt, with that packet, and one more addition to the drop
    /// counter, of what the outcome is worth.
    pub open spec fn moves_to(&self, packet: HepPacket, offered: Offered, next: Self) -> bool {
        &&& next.outlet() == self.outlet()
        &&& next.offers() == self.offers().push((packet, offered))
        &&& next.counts() == self.counts().push(drops_of(offered) as u64)
        &&& tried(self.outlet().queue(), packet, offered)
        &&& adds(self.outlet().drops_counter(), drops_of(offered) as u64)
    }

    /// Offer the packet to the queue once, and count it as a drop if the queue refuses
    /// it.
    pub fn send(&mut self, packet: HepPacket) -> (offered: Offered)
        ensures
            old(self).moves_to(packet, offered, *final(self)),
    {
        let offered = self.offer(packet);
        self.count(offered.drops());
        offered
    }
}

impl HepSink for UdpHepSink {
    /// Offer the packet to the queue, and count it as a drop if the queue refuses it. A
    /// queued packet adds nothing to the drop counter.
    fn send(&self, packet: HepPacket)
        ensures
            exists|offered: Offered| self.sends(packet, offered),
    {
        let mut producer = self.outlet.producer();
        let ghost before = producer;
        let offered = producer.send(packet);
        assert(before.moves_to(packet, offered, producer));
        assert(self.sends(packet, offered));
    }
}

impl UdpHepWorker {
    /// Whether `next` is what a worker is after an event: its state has moved on, and
    /// the number of sent packets is published where it was before, by one write.
    pub open spec fn moves_to(&self, event: WorkerEvent, next: UdpHepWorker) -> bool {
        &&& next.state == self.state.next(event)
        &&& next.sent.counter() == self.sent.counter()
        &&& publishes(*next.sent.counter(), next.state.sent)
        &&& next.sent.written() == self.sent.written().push(next.state.sent)
    }

    /// Take in an event, and say what to do about it. The counter of sent packets
    /// is up to date and the queue is closed, where the event asks for it, by the
    /// time the call returns.
    pub fn step(&mut self, event: WorkerEvent) -> (action: WorkerAction)
        ensures
            old(self).moves_to(event, *final(self)),
            action@ == old(self).state.response(event),
            final(self).shutdown == old(self).shutdown,
            action is CloseQueue ==> refuses(final(self).queue),
            !(action is CloseQueue) ==> final(self).queue == old(self).queue,
            forall|tx: Sender<HepPacket>|
                feeds(tx, final(self).queue) == feeds(tx, old(self).queue),
    {
        let action = self.state.step(event);
        self.sent.publish(self.state.sent);
        if let WorkerAction::CloseQueue = action {
            close_queue(&mut self.queue);
        }
        action
    }
}

/// How many packets a row of attempts has dropped.
pub open spec fn total_drops(offers: Seq<Offered>) -> nat
    decreases offers.len(),
{
    if offers.len() == 0 {
        0
    } else {
        total_drops(offers.drop_last()) + drops_of(offers.last())
    }
}

/// How many packets a row of attempts has put into the queue.
pub open spec fn total_queued(offers: Seq<Offered>) -> nat
    decreases offers.len(),
{
    if offers.len() == 0 {
        0
    } else {
        total_queued(offers.drop_last()) + (if offers.last() is Queued {
            1nat
        } else {
            0nat
        })
    }
}

/// A packet that is offered is either queued or counted as a drop: none gets lost
/// in silence.
pub proof fn law_every_offer_is_accounted_for(offers: Seq<Offered>)
    ensures
        total_queued(offers) + total_drops(offers) == offers.len(),
    decreases offers.len(),
{
    if offers.len() > 0 {
        law_every_offer_is_accounted_for(offers.drop_last());
    }
}

/// A packet that was sent through a sink is in the queue, and nothing was added to the
/// drop counter, or it was handed back and one was added, whether the queue was full or
/// closed.
pub proof fn law_sent_packet_is_queued_or_counted(
    sink: UdpHepSink,
    packet: HepPacket,
    offered: Offered,
)
    requires
        sink.sends(packet, offered),
    ensures
        match offered {
            Offered::Queued => adds(sink.drops_counter(), 0),
            Offered::QueueFull(back) => back == packet && adds(sink.drops_counter(), 1),
            Offered::QueueClosed(back) => back == packet && adds(sink.drops_counter(), 1),
        },
{
}

/// A clone of a sink feeds the same queue, reads the same counters and gives the
/// same shutdown signal.
pub proof fn law_clones_share_queue_and_counters(sink: UdpHepSink, copy: UdpHepSink)
    requires
        cloned(sink, copy),
    ensures
        copy.queue() == sink.queue(),
        queue_bound(copy.queue()) == queue_bound(sink.queue()),
        forall|n: u64| reads(copy.drops_counter(), n) == reads(sink.drops_counter(), n),
        forall|n: u64| reads(*copy.sent_counter(), n) == reads(*sink.sent_counter(), n),
        copy.shutdown_signal() == sink.shutdown_signal(),
        forall|packet: HepPacket, offered: Offered|
            copy.sends(packet, offered) == sink.sends(packet, offered),
{
}

/// After a row of events, the published number of sent packets is the number of
/// successful sends, modulo 2^64, on top of where the worker started.
pub proof fn law_published_count_is_the_successes(
    workers: Seq<UdpHepWorker>,
    events: Seq<WorkerEvent>,
)
    requires
        events.len() > 0,
        workers.len() == events.len() + 1,
        forall|i: int|
            0 <= i < events.len() ==> (#[trigger] workers[i]).moves_to(events[i], workers[i + 1]),
    ensures
        publishes(
            *workers[0].sent.counter(),
            ((workers[0].state.sent + successes(events)) % 0x1_0000_0000_0000_0000) as u64,
        ),
{
    lemma_run(workers, events);
    law_sent_counts_successes(workers[0].state, events);
    assert(workers[events.len() - 1].moves_to(events[events.len() - 1], workers.last()));
}

/// After a row of events, a worker has the state that the events lead to, and
/// publishes where it did at the start.
proof fn lemma_run(workers: Seq<UdpHepWorker>, events: Seq<WorkerEvent>)
    requires
        workers.len() == events.len() + 1,
        forall|i: int|
            0 <= i < events.len() ==> (#[trigger] workers[i]).moves_to(events[i], workers[i + 1]),
    ensures
        workers.last().state == workers[0].state.after(events),
        workers.last().sent.counter() == workers[0].sent.counter(),
    decreases events.len(),
{
    if events.len() > 0 {
        let ws = workers.drop_last();
        let es = events.drop_last();
        assert forall|i: int| 0 <= i < es.len() implies (#[trigger] ws[i]).moves_to(
            es[i],
            ws[i + 1],
        ) by {
            assert(workers[i].moves_to(events[i], workers[i + 1]));
        }
        lemma_run(ws, es);
        assert(workers[events.len() - 1].moves_to(events[events.len() - 1], workers.last()));
    }
}

/// Each send is one attempt on the queue and one addition to the drop counter. After a row
/// of sends, the attempts are the packets of these sends, each of them once and in order.
/// The additions are one for each send: 0 if the queue took the packet, and 1 if it was
/// full or closed.
pub proof fn law_each_send_is_one_attempt(
    producers: Seq<Producer>,
    packets: Seq<HepPacket>,
    offers: Seq<Offered>,
)
    requires
        packets.len() == offers.len(),
        producers.len() == packets.len() + 1,
        producers[0].offers().len() == 0,
        producers[0].counts().len() == 0,
        forall|i: int|
            0 <= i < packets.len() ==> (#[trigger] producers[i]).moves_to(
                packets[i],
                offers[i],
                producers[i + 1],
            ),
    ensures
        producers.last().offers().len() == packets.len(),
        producers.last().counts().len() == packets.len(),
        forall|i: int|
            0 <= i < packets.len() ==> (#[trigger] producers.last().offers()[i]) == (
                packets[i],
                offers[i],
            ),
        forall|i: int|
            0 <= i < packets.len() ==> (#[trigger] producers.last().counts()[i]) == (if offers[i]
                == Offered::Queued {
                0u64
            } else {
                1u64
            }),
    decreases packets.len(),
{
    if packets.len() > 0 {
        let n = packets.len() - 1;
        let before = producers.drop_last();
        assert forall|i: int| 0 <= i < n implies (#[trigger] before[i]).moves_to(
            packets.drop_last()[i],
            offers.drop_last()[i],
            before[i + 1],
        ) by {
            assert(producers[i].moves_to(packets[i], offers[i], producers[i + 1]));
        }
        law_each_send_is_one_attempt(before, packets.drop_last(), offers.drop_last());
        assert(producers[n].moves_to(packets[n], offers[n], producers.last()));
        assert(before.last() == producers[n]);
        assert forall|i: int| 0 <= i < packets.len() implies (
        #[trigger] producers.last().offers()[i]) == (packets[i], offers[i]) by {
            if i < n {
                assert(before.last().offers()[i] == (
                    packets.drop_last()[i],
                    offers.drop_last()[i],
                ));
            }
        }
        assert forall|i: int| 0 <= i < packets.len() implies (
        #[trigger] producers.last().counts()[i]) == (if offers[i] == Offered::Queued {
            0u64
        } else {
            1u64
        }) by {
            if i < n {
                assert(before.last().counts()[i] == (if offers.drop_last()[i] == Offered::Queued {
                    0u64
                } else {
                    1u64
                }));
            }
        }
    }
}

/// Each event is one write of the counter of sent packets, and each write is the number of
/// successful sends up to then. So after an event, the counter was last set to the number
/// of successes, whatever was written before.
pub proof fn law_each_event_is_one_write(workers: Seq<UdpHepWorker>, events: Seq<WorkerEvent>)
    requires
        workers.len() == events.len() + 1,
        workers[0].state.sent == 0,
        workers[0].sent.written().len() == 0,
        forall|i: int|
            0 <= i < events.len() ==> (#[trigger] workers[i]).moves_to(events[i], workers[i + 1]),
    ensures
        workers.last().sent.written().len() == events.len(),
        forall|i: int|
            0 <= i < events.len() ==> (#[trigger] workers.last().sent.written()[i]) == successes(
                events.take(i + 1),
            ) % 0x1_0000_0000_0000_0000,
    decreases events.len(),
{
    if events.len() > 0 {
        let n = events.len() - 1;
        let ws = workers.drop_last();
        let es = events.drop_last();
        assert forall|i: int| 0 <= i < es.len() implies (#[trigger] ws[i]).moves_to(
            es[i],
            ws[i + 1],
        ) by {
            assert(workers[i].moves_to(events[i], workers[i + 1]));
        }
        law_each_event_is_one_write(ws, es);
        lemma_run(workers, events);
        law_sent_counts_successes(workers[0].state, events);
        assert(workers[n].moves_to(events[n], workers.last()));
        assert forall|i: int| 0 <= i < events.len() implies (
        #[trigger] workers.last().sent.written()[i]) == successes(events.take(i + 1))
            % 0x1_0000_0000_0000_0000 by {
            if i < n {
                assert(ws.last().sent.written()[i] == successes(es.take(i + 1))
                    % 0x1_0000_0000_0000_0000);
                assert(es.take(i + 1) =~= events.take(i + 1));
            } else {
                assert(events.take(i + 1) =~= events);
            }
        }
    }
}

/// The packets that were sent and those that were dropped are no more than those
/// that were offered, as long as the queue hands out only what was put into it.
pub proof fn law_sent_and_dropped_were_offered(
    state: WorkerState,
    offers: Seq<Offered>,
    events: Seq<WorkerEvent>,
)
    requires
        state.sent == 0,
        receptions(events) <= total_queued(offers),
        outcomes_follow_packets(events),
    ensures
        successes(events) + total_drops(offers) <= offers.len(),
        state.after(events).sent + total_drops(offers) <= offers.len(),
{
    law_every_offer_is_accounted_for(offers);
    law_no_success_without_a_packet(events);
    law_sent_counts_successes(state, events);
}

/// The same of a sink and its worker: the number that the worker has published last,
/// together with the drops that the outcomes of the sends are worth, is no more than
/// the packets that were sent through the sink. Each send has added to the drop counter
/// what its outcome is worth.
pub proof fn law_published_and_dropped_do_not_exceed_the_sends(
    sink: UdpHepSink,
    packets: Seq<HepPacket>,
    offers: Seq<Offered>,
    workers: Seq<UdpHepWorker>,
    events: Seq<WorkerEvent>,
)
    requires
        packets.len() == offers.len(),
        forall|i: int| 0 <= i < packets.len() ==> sink.sends(#[trigger] packets[i], offers[i]),
        events.len() > 0,
        workers.len() == events.len() + 1,
        forall|i: int|
            0 <= i < events.len() ==> (#[trigger] workers[i]).moves_to(events[i], workers[i + 1]),
        workers[0].sent.counter() == sink.sent_counter(),
        workers[0].state.sent == 0,
        receptions(events) <= total_queued(offers),
        outcomes_follow_packets(events),
    ensures
        workers.last().state.sent + total_drops(offers) <= packets.len(),
        publishes(*sink.sent_counter(), workers.last().state.sent),
        forall|i: int|
            0 <= i < packets.len() ==> adds(
                sink.drops_counter(),
                drops_of(#[trigger] offers[i]) as u64,
            ),
{
    lemma_run(workers, events);
    law_sent_and_dropped_were_offered(workers[0].state, offers, events);
    assert(workers[events.len() - 1].moves_to(events[events.len() - 1], workers.last()));
    assert forall|i: int| 0 <= i < packets.len() implies adds(
        sink.drops_counter(),
        drops_of(#[trigger] offers[i]) as u64,
    ) by {
        assert(sink.sends(packets[i], offers[i]));
    }
}

} // verus!
