//! What the worker behind a sink does, event by event.
//!
//! The worker takes packets from the queue, encodes each of them and sends it to
//! the collector. A send that fails is reported and the packet is given up: there
//! is no retry queue. After a shutdown request the worker closes the queue, which
//! refuses further packets, and goes on until the queue is empty.

use vstd::prelude::*;

use crate::decode::{decoding, DecodeError};
use crate::encode::encoding;
use crate::laws::{law_round_trip, survives_the_wire};
use crate::packet::{HepPacket, PacketView};

verus! {

/// What a worker keeps between two events. Instants and durations are in
/// nanoseconds; an instant counts from some fixed point of a monotonic clock.
#[derive(Debug, Clone, Copy, PartialEq, Eq)]
pub struct WorkerState {
    /// Packets that were handed to the network, modulo 2^64.
    pub sent: u64,
    /// When the last warning about a failed send was logged.
    pub last_warn: Option<u128>,
    /// How long to hold back further warnings after a warning.
    pub warn_throttle: u128,
    /// Whether the queue was closed, so that only the backlog is left to send.
    pub draining: bool,
}

/// What happens to a worker.
pub enum WorkerEvent {
    /// A packet came out of the queue.
    Received(HepPacket),
    /// The queue is empty, and no packet will enter it any more.
    QueueClosed,
    /// A shutdown was requested.
    ShutdownRequested,
    /// The network took the bytes of the last transmission.
    SendSucceeded,
    /// The network refused the bytes of the last transmission.
    SendFailed {
        /// When that was.
        now: u128,
    },
}

/// What a worker does next.
#[derive(Debug, PartialEq, Eq)]
pub enum WorkerAction {
    /// Wait for the next packet or for a shutdown request.
    Receive,
    /// Close the queue, then wait for the next packet of the backlog.
    CloseQueue,
    /// Send these bytes to the collector.
    Transmit(Vec<u8>),
    /// Log that a send failed, as a warning or at debug level only. Then wait for
    /// the next packet or for a shutdown request.
    Report {
        /// Whether to log a warning.
        warn: bool,
    },
    /// Stop.
    Exit,
}

/// What a [`WorkerAction`] says.
pub enum ActionView {
    Receive,
    CloseQueue,
    Transmit(Seq<u8>),
    Report { warn: bool },
    Exit,
}

impl View for WorkerAction {
    type V = ActionView;

    open spec fn view(&self) -> ActionView {
        match *self {
            WorkerAction::Receive => ActionView::Receive,
            WorkerAction::CloseQueue => ActionView::CloseQueue,
            WorkerAction::Transmit(bytes) => ActionView::Transmit(bytes@),
            WorkerAction::Report { warn } => ActionView::Report { warn },
            WorkerAction::Exit => ActionView::Exit,
        }
    }
}

/// What an action says is what it is.
pub proof fn law_action_says_what_it_is(action: WorkerAction)
    ensures
        action is Receive <==> action@ is Receive,
        action is CloseQueue <==> action@ is CloseQueue,
        action is Exit <==> action@ is Exit,
        forall|bytes: Seq<u8>|
            action@ == ActionView::Transmit(bytes) <==> (
            action matches WorkerAction::Transmit(data) && data@ == bytes),
        forall|warn: bool|
            action@ == (ActionView::Report { warn }) <==> action == (WorkerAction::Report { warn }),
{
}

impl WorkerState {
    /// Whether a send that failed at `now` is worth a warning: there was none yet,
    /// or the last one is long enough ago.
    pub open spec fn should_warn(self, now: u128) -> bool {
        match self.last_warn {
            Some(prev) => (if now >= prev {
                now - prev
            } else {
                0
            }) >= self.warn_throttle,
            None => true,
        }
    }

    /// The state after an event.
    pub open spec fn next(self, event: WorkerEvent) -> WorkerState {
        match event {
            WorkerEvent::Received(_) => self,
            WorkerEvent::QueueClosed => self,
            WorkerEvent::ShutdownRequested => WorkerState { draining: true, ..self },
            WorkerEvent::SendSucceeded => WorkerState { sent: self.sent.wrapping_add(1), ..self },
            WorkerEvent::SendFailed { now } => if self.should_warn(now) {
                WorkerState { last_warn: Some(now), ..self }
            } else {
                self
            },
        }
    }

    /// The action that an event calls for.
    pub open spec fn response(self, event: WorkerEvent) -> ActionView {
        match event {
            WorkerEvent::Received(packet) => ActionView::Transmit(encoding(packet@)),
            WorkerEvent::QueueClosed => ActionView::Exit,
            WorkerEvent::ShutdownRequested => if self.draining {
                ActionView::Receive
            } else {
                ActionView::CloseQueue
            },
            WorkerEvent::SendSucceeded => ActionView::Receive,
            WorkerEvent::SendFailed { now } => ActionView::Report { warn: self.should_warn(now) },
        }
    }

    /// The state after a row of events.
    pub open spec fn after(self, events: Seq<WorkerEvent>) -> WorkerState
        decreases events.len(),
    {
        if events.len() == 0 {
            self
        } else {
            self.after(events.drop_last()).next(events.last())
        }
    }

    /// The action that the `i`-th of a row of events calls for.
    pub open spec fn response_at(self, events: Seq<WorkerEvent>, i: int) -> ActionView {
        self.after(events.take(i)).response(events[i])
    }

    /// A worker that has done nothing yet.
    pub fn new(warn_throttle: u128) -> (state: WorkerState)
        ensures
            state == (WorkerState { sent: 0, last_warn: None, warn_throttle, draining: false }),
    {
        WorkerState { sent: 0, last_warn: None, warn_throttle, draining: false }
    }

    /// Take in an event, and say what to do about it.
    pub fn step(&mut self, event: WorkerEvent) -> (action: WorkerAction)
        ensures
            *final(self) == old(self).next(event),
            action@ == old(self).response(event),
    {
        match event {
            WorkerEvent::Received(packet) => WorkerAction::Transmit(packet.encode()),
            WorkerEvent::QueueClosed => WorkerAction::Exit,
            WorkerEvent::ShutdownRequested => {
                if self.draining {
                    WorkerAction::Receive
                } else {
                    self.draining = true;
                    WorkerAction::CloseQueue
                }
            },
            WorkerEvent::SendSucceeded => {
                self.sent = self.sent.wrapping_add(1);
                WorkerAction::Receive
            },
            WorkerEvent::SendFailed { now } => {
                let warn = match self.last_warn {
                    Some(prev) => {
                        let elapsed: u128 = if now >= prev {
                            now - prev
                        } else {
                            0
                        };
                        elapsed >= self.warn_throttle
                    },
                    None => true,
                };
                if warn {
                    self.last_warn = Some(now);
                }
                WorkerAction::Report { warn }
            },
        }
    }
}

/// How many of a row of events say that the network took a packet.
pub open spec fn successes(events: Seq<WorkerEvent>) -> nat
    decreases events.len(),
{
    if events.len() == 0 {
        0
    } else {
        successes(events.drop_last()) + (if events.last() is SendSucceeded {
            1nat
        } else {
            0nat
        })
    }
}

/// How many of a row of events bring a packet.
pub open spec fn receptions(events: Seq<WorkerEvent>) -> nat
    decreases events.len(),
{
    if events.len() == 0 {
        0
    } else {
        receptions(events.drop_last()) + (if events.last() is Received {
            1nat
        } else {
            0nat
        })
    }
}

/// Whether the clock never runs backwards in a row of events.
pub open spec fn clock_is_monotonic(events: Seq<WorkerEvent>) -> bool {
    forall|i: int, j: int|
        0 <= i < j < events.len() && (#[trigger] events[i]) is SendFailed && (
        #[trigger] events[j]) is SendFailed ==> events[i]->now <= events[j]->now
}

/// Whether the network is heard about only after a transmission: an outcome of a
/// send comes right after the packet that was sent.
pub open spec fn outcomes_follow_packets(events: Seq<WorkerEvent>) -> bool {
    forall|i: int|
        0 <= i < events.len() && ((#[trigger] events[i]) is SendSucceeded || events[i]
            is SendFailed) ==> i > 0 && events[i - 1] is Received
}

/// Each packet that comes out of the queue is transmitted, as its encoding, and
/// nothing else is. Neither failed sends nor a shutdown request before it make a
/// difference: a shutdown flushes the backlog.
pub proof fn law_every_packet_is_transmitted(
    state: WorkerState,
    events: Seq<WorkerEvent>,
    i: int,
    bytes: Seq<u8>,
)
    requires
        0 <= i < events.len(),
    ensures
        state.response_at(events, i) == ActionView::Transmit(bytes) <==> (
        events[i] matches WorkerEvent::Received(packet) && bytes == encoding(packet@)),
{
}

/// What the worker transmits of a packet that survives the wire is what a collector
/// decodes to that packet, whatever came before.
pub proof fn law_collector_decodes_what_was_sent(
    state: WorkerState,
    events: Seq<WorkerEvent>,
    i: int,
    packet: HepPacket,
)
    requires
        0 <= i < events.len(),
        events[i] == WorkerEvent::Received(packet),
        survives_the_wire(packet@),
    ensures
        state.response_at(events, i) matches ActionView::Transmit(bytes) && decoding(bytes) == Ok::<
            PacketView,
            DecodeError,
        >(packet@),
{
    law_round_trip(packet@);
}

/// A worker stops when the queue has run dry, and for no other reason.
pub proof fn law_worker_exits_when_the_queue_is_dry(
    state: WorkerState,
    events: Seq<WorkerEvent>,
    i: int,
)
    requires
        0 <= i < events.len(),
    ensures
        state.response_at(events, i) is Exit <==> events[i] is QueueClosed,
{
}

/// The counter of sent packets counts the successful sends, modulo 2^64.
pub proof fn law_sent_counts_successes(state: WorkerState, events: Seq<WorkerEvent>)
    ensures
        state.after(events).sent == (state.sent + successes(events)) % 0x1_0000_0000_0000_0000,
    decreases events.len(),
{
    if events.len() > 0 {
        law_sent_counts_successes(state, events.drop_last());
    }
}

/// The throttle of a worker never changes.
proof fn lemma_throttle(state: WorkerState, events: Seq<WorkerEvent>)
    ensures
        state.after(events).warn_throttle == state.warn_throttle,
    decreases events.len(),
{
    if events.len() > 0 {
        lemma_throttle(state, events.drop_last());
    }
}

/// A prefix of a prefix is a prefix.
proof fn lemma_take_step(events: Seq<WorkerEvent>, i: int)
    requires
        0 <= i < events.len(),
    ensures
        events.take(i + 1).drop_last() == events.take(i),
        events.take(i + 1).last() == events[i],
{
    assert(events.take(i + 1).drop_last() =~= events.take(i));
}

/// From a warning on, the last warning is no earlier than that one.
proof fn lemma_last_warn_after(state: WorkerState, events: Seq<WorkerEvent>, i: int, j: int)
    requires
        0 <= i < j <= events.len(),
        events[i] is SendFailed,
        state.response_at(events, i) == (ActionView::Report { warn: true }),
        clock_is_monotonic(events),
    ensures
        state.after(events.take(j)).last_warn matches Some(prev) && prev >= events[i]->now,
    decreases j,
{
    lemma_take_step(events, j - 1);
    if i < j - 1 {
        lemma_last_warn_after(state, events, i, j - 1);
    }
}

/// Warnings are throttled: between two warnings lies at least the throttle.
pub proof fn law_warnings_are_throttled(
    state: WorkerState,
    events: Seq<WorkerEvent>,
    i: int,
    j: int,
)
    requires
        0 <= i < j < events.len(),
        clock_is_monotonic(events),
        state.response_at(events, i) == (ActionView::Report { warn: true }),
        state.response_at(events, j) == (ActionView::Report { warn: true }),
    ensures
        events[j]->now - events[i]->now >= state.warn_throttle,
{
    lemma_last_warn_after(state, events, i, j);
    lemma_throttle(state, events.take(j));
}

/// The last warning of a worker that started without one is one that it logged.
proof fn lemma_last_warn_was_logged(state: WorkerState, events: Seq<WorkerEvent>, j: int)
    requires
        0 <= j <= events.len(),
        state.last_warn is None,
        state.after(events.take(j)).last_warn is Some,
    ensures
        exists|i: int|
            0 <= i < j && (#[trigger] state.response_at(events, i)) == (ActionView::Report {
                warn: true,
            }) && state.after(events.take(j)).last_warn == Some(events[i]->now),
    decreases j,
{
    if j > 0 {
        lemma_take_step(events, j - 1);
        let before = state.after(events.take(j - 1));
        if state.response_at(events, j - 1) == (ActionView::Report { warn: true }) {
            assert(state.after(events.take(j)).last_warn == Some(events[j - 1]->now));
        } else {
            assert(state.after(events.take(j)).last_warn == before.last_warn);
            lemma_last_warn_was_logged(state, events, j - 1);
        }
    } else {
        assert(events.take(0) =~= seq![]);
    }
}

/// A failed send goes without a warning only within the throttle of a warning that
/// was logged. So the first failure of a worker is a warning.
pub proof fn law_silence_follows_a_warning(state: WorkerState, events: Seq<WorkerEvent>, j: int)
    requires
        0 <= j < events.len(),
        state.last_warn is None,
        clock_is_monotonic(events),
        state.response_at(events, j) == (ActionView::Report { warn: false }),
    ensures
        exists|i: int|
            0 <= i < j && (#[trigger] state.response_at(events, i)) == (ActionView::Report {
                warn: true,
            }) && events[j]->now - events[i]->now < state.warn_throttle,
{
    lemma_last_warn_was_logged(state, events, j);
    lemma_throttle(state, events.take(j));
}

/// Every failed send is reported, and nothing else is. The report is a warning exactly when
/// it is due: when each warning that was logged before is at least the throttle ago. So the
/// first failure is a warning, and so is the next one after a throttle period.
pub proof fn law_every_failure_is_reported(state: WorkerState, events: Seq<WorkerEvent>, j: int)
    requires
        0 <= j < events.len(),
        state.last_warn is None,
        clock_is_monotonic(events),
    ensures
        state.response_at(events, j) is Report <==> events[j] is SendFailed,
        events[j] matches WorkerEvent::SendFailed { now } ==> (state.response_at(events, j) == (
        ActionView::Report { warn: true }) <==> forall|i: int|
            0 <= i < j && (#[trigger] state.response_at(events, i)) == (ActionView::Report {
                warn: true,
            }) ==> now - events[i]->now >= state.warn_throttle),
{
    if let WorkerEvent::SendFailed { now } = events[j] {
        lemma_throttle(state, events.take(j));
        let before = state.after(events.take(j));
        assert forall|i: int|
            0 <= i < j && (#[trigger] state.response_at(events, i)) == (ActionView::Report {
                warn: true,
            }) && before.should_warn(now) implies now - events[i]->now >= state.warn_throttle by {
            lemma_last_warn_after(state, events, i, j);
        }
        if !before.should_warn(now) {
            lemma_last_warn_was_logged(state, events, j);
        }
    }
}

/// What makes a failed send a warning, in any state: there was no warning yet, or the time
/// since the last one has reached the throttle. A clock that runs backwards counts as no
/// time. A warning is remembered, and a failure that is none leaves the last one in place.
pub proof fn law_warning_is_due(state: WorkerState, now: u128)
    ensures
        ({
            let failure = WorkerEvent::SendFailed { now };
            let due = state.last_warn matches Some(prev) ==> state.warn_throttle == 0 || now - prev
                >= state.warn_throttle;
            &&& state.response(failure) == (ActionView::Report { warn: due })
            &&& state.next(failure).last_warn == (if due {
                Some(now)
            } else {
                state.last_warn
            })
            &&& state.next(failure).sent == state.sent
            &&& state.next(failure).draining == state.draining
            &&& state.next(failure).warn_throttle == state.warn_throttle
        }),
{
}

/// What a worker does about the events that are neither packets nor failures: after a
/// success, and after each shutdown request but the first, it waits for the next packet.
pub proof fn law_worker_waits_after_success(state: WorkerState, events: Seq<WorkerEvent>, j: int)
    requires
        0 <= j < events.len(),
        !state.draining,
    ensures
        state.response_at(events, j) is Receive <==> (events[j] is SendSucceeded || (events[j]
            is ShutdownRequested && exists|i: int|
            0 <= i < j && (#[trigger] events[i]) is ShutdownRequested)),
{
    law_first_shutdown_closes_the_queue(state, events, j);
}

/// Once a shutdown was requested, the worker is draining for good.
proof fn lemma_draining_after(state: WorkerState, events: Seq<WorkerEvent>, i: int, j: int)
    requires
        0 <= i < j <= events.len(),
        events[i] is ShutdownRequested,
    ensures
        state.after(events.take(j)).draining,
    decreases j,
{
    lemma_take_step(events, j - 1);
    if i < j - 1 {
        lemma_draining_after(state, events, i, j - 1);
    }
}

/// Before the first shutdown request, the worker is not draining.
proof fn lemma_not_draining_before(state: WorkerState, events: Seq<WorkerEvent>, j: int)
    requires
        0 <= j <= events.len(),
        !state.draining,
        forall|i: int| 0 <= i < j ==> !((#[trigger] events[i]) is ShutdownRequested),
    ensures
        !state.after(events.take(j)).draining,
    decreases j,
{
    if j > 0 {
        lemma_take_step(events, j - 1);
        assert(!(events[j - 1] is ShutdownRequested));
        lemma_not_draining_before(state, events, j - 1);
    } else {
        assert(events.take(0) =~= seq![]);
    }
}

/// The first shutdown request closes the queue, and no later event does.
pub proof fn law_first_shutdown_closes_the_queue(
    state: WorkerState,
    events: Seq<WorkerEvent>,
    j: int,
)
    requires
        0 <= j < events.len(),
        !state.draining,
    ensures
        state.response_at(events, j) is CloseQueue <==> (events[j] is ShutdownRequested && forall|
            i: int,
        |
            0 <= i < j ==> !((#[trigger] events[i]) is ShutdownRequested)),
{
    if forall|i: int| 0 <= i < j ==> !((#[trigger] events[i]) is ShutdownRequested) {
        lemma_not_draining_before(state, events, j);
    } else {
        let i = choose|i: int| 0 <= i < j && (#[trigger] events[i]) is ShutdownRequested;
        lemma_draining_after(state, events, i, j);
    }
}

/// There are no more successful sends than packets.
pub proof fn law_no_success_without_a_packet(events: Seq<WorkerEvent>)
    requires
        outcomes_follow_packets(events),
    ensures
        successes(events) <= receptions(events),
{
    lemma_successes(events);
}

/// There are no more successful sends than packets, and fewer where the last
/// packet is still under way.
proof fn lemma_successes(events: Seq<WorkerEvent>)
    requires
        outcomes_follow_packets(events),
    ensures
        successes(events) + (if events.len() > 0 && events.last() is Received {
            1nat
        } else {
            0nat
        }) <= receptions(events),
    decreases events.len(),
{
    if events.len() > 0 {
        let front = events.drop_last();
        assert forall|i: int|
            0 <= i < front.len() && ((#[trigger] front[i]) is SendSucceeded || front[i]
                is SendFailed) implies i > 0 && front[i - 1] is Received by {
            assert(front[i] == events[i]);
            assert(front[i - 1] == events[i - 1]);
        }
        lemma_successes(front);
        assert(events[events.len() - 1] is SendSucceeded ==> front.last() is Received);
    }
}

} // verus!
