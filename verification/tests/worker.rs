use hep_rs::{
    HepPacket, HepProtocol, IpProto, SocketAddr, Timestamp, WorkerAction, WorkerEvent, WorkerState,
};

fn sample_packet(capture_id: u32) -> HepPacket {
    HepPacket {
        capture_id,
        capture_password: None,
        protocol: HepProtocol::Log,
        transport: IpProto::Udp,
        src: SocketAddr::V4 { octets: [10, 0, 0, 1], port: 1 },
        dst: SocketAddr::V4 { octets: [10, 0, 0, 2], port: 2 },
        timestamp: Timestamp::after_epoch(1, 0),
        correlation_id: None,
        payload: vec![1, 2, 3],
    }
}

#[test]
fn packet_is_transmitted_as_its_encoding() {
    let mut state = WorkerState::new(60);
    let action = state.step(WorkerEvent::Received(sample_packet(7)));
    assert_eq!(action, WorkerAction::Transmit(sample_packet(7).encode()));
    assert_eq!(state, WorkerState::new(60));
}

#[test]
fn successes_are_counted() {
    let mut state = WorkerState::new(60);
    for sent in 1..=3 {
        state.step(WorkerEvent::Received(sample_packet(7)));
        assert_eq!(state.step(WorkerEvent::SendSucceeded), WorkerAction::Receive);
        assert_eq!(state.sent, sent);
    }
    state.sent = u64::MAX;
    state.step(WorkerEvent::SendSucceeded);
    assert_eq!(state.sent, 0);
}

#[test]
fn failures_warn_once_per_throttle() {
    let mut state = WorkerState::new(60);
    let mut fail = |now| state.step(WorkerEvent::SendFailed { now });
    assert_eq!(fail(1_000), WorkerAction::Report { warn: true });
    assert_eq!(fail(1_001), WorkerAction::Report { warn: false });
    assert_eq!(fail(1_059), WorkerAction::Report { warn: false });
    assert_eq!(fail(1_060), WorkerAction::Report { warn: true });
    assert_eq!(fail(1_119), WorkerAction::Report { warn: false });
    assert_eq!(fail(1_500), WorkerAction::Report { warn: true });
    assert_eq!(state.sent, 0);
    assert_eq!(state.last_warn, Some(1_500));
}

#[test]
fn clock_that_runs_backwards_counts_as_no_time() {
    let mut state = WorkerState::new(1);
    state.step(WorkerEvent::SendFailed { now: 100 });
    let action = state.step(WorkerEvent::SendFailed { now: 50 });
    assert_eq!(action, WorkerAction::Report { warn: false });
}

#[test]
fn throttle_of_zero_always_warns() {
    let mut state = WorkerState::new(0);
    for _ in 0..3 {
        let action = state.step(WorkerEvent::SendFailed { now: 5 });
        assert_eq!(action, WorkerAction::Report { warn: true });
    }
}

#[test]
fn first_shutdown_request_closes_the_queue() {
    let mut state = WorkerState::new(60);
    assert_eq!(state.step(WorkerEvent::ShutdownRequested), WorkerAction::CloseQueue);
    assert_eq!(state.step(WorkerEvent::ShutdownRequested), WorkerAction::Receive);
    // The backlog is still sent.
    let action = state.step(WorkerEvent::Received(sample_packet(9)));
    assert_eq!(action, WorkerAction::Transmit(sample_packet(9).encode()));
    assert_eq!(state.step(WorkerEvent::SendSucceeded), WorkerAction::Receive);
    assert_eq!(state.sent, 1);
    assert_eq!(state.step(WorkerEvent::QueueClosed), WorkerAction::Exit);
}

#[test]
fn dry_queue_ends_the_worker() {
    let mut state = WorkerState::new(60);
    assert_eq!(state.step(WorkerEvent::QueueClosed), WorkerAction::Exit);
}
