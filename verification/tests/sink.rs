use hep_rs::udp::DEFAULT_QUEUE_CAPACITY;
use hep_rs::{
    HepPacket, HepProtocol, HepSink, HepSinkHandle, IpProto, Offered, SocketAddr, Timestamp,
    UdpHepSink, UdpHepSinkConfig, UdpHepSinkError, UdpHepWorker, WorkerAction, WorkerEvent,
};
use std::future::Future;
use std::sync::Arc;
use std::task::Poll;
use std::time::{Duration, Instant};
use tokio::sync::mpsc::{UnboundedReceiver, UnboundedSender};
use tokio::task::JoinHandle;
use tokio::time::timeout;

fn sample_packet() -> HepPacket {
    HepPacket {
        capture_id: 2001,
        capture_password: Some("hunter2".into()),
        protocol: HepProtocol::Sip,
        transport: IpProto::Udp,
        src: SocketAddr::V4 { octets: [10, 0, 0, 1], port: 5060 },
        dst: SocketAddr::V4 { octets: [10, 0, 0, 2], port: 5060 },
        timestamp: Timestamp::after_epoch(1_700_000_000, 123_456_000),
        correlation_id: Some("call-test-1".into()),
        payload: b"INVITE sip:bob@example.com SIP/2.0\r\nFrom: <sip:alice@example.com>\r\n\r\n"
            .to_vec(),
    }
}

fn loopback(port: u16) -> SocketAddr {
    SocketAddr::V4 { octets: [127, 0, 0, 1], port }
}

/// Run a scenario that has to wait.
fn run<F: Future<Output = ()>>(scenario: F) {
    tokio::runtime::Builder::new_current_thread()
        .enable_all()
        .build()
        .expect("runtime")
        .block_on(scenario);
}

/// Wait for a packet or for a shutdown request.
async fn next_event(worker: &mut UdpHepWorker) -> WorkerEvent {
    let shutdown = Arc::clone(&worker.shutdown);
    let mut requested = Box::pin(shutdown.notified());
    let queue = &mut worker.queue;
    std::future::poll_fn(move |cx| {
        if requested.as_mut().poll(cx).is_ready() {
            return Poll::Ready(WorkerEvent::ShutdownRequested);
        }
        match queue.poll_recv(cx) {
            Poll::Ready(Some(packet)) => Poll::Ready(WorkerEvent::Received(packet)),
            Poll::Ready(None) => Poll::Ready(WorkerEvent::QueueClosed),
            Poll::Pending => Poll::Pending,
        }
    })
    .await
}

/// Do what a worker asks for until it is done, over a network that takes every
/// datagram.
async fn drive(mut worker: UdpHepWorker, network: UnboundedSender<Vec<u8>>) {
    let start = Instant::now();
    let mut action = WorkerAction::Receive;
    loop {
        let event = match action {
            WorkerAction::Exit => return,
            WorkerAction::Transmit(bytes) => match network.send(bytes) {
                Ok(_) => WorkerEvent::SendSucceeded,
                Err(_) => WorkerEvent::SendFailed { now: start.elapsed().as_nanos() },
            },
            _ => next_event(&mut worker).await,
        };
        action = worker.step(event);
    }
}

/// A sink with a running worker, and the collector's end of the network.
fn start(queue_capacity: usize) -> (UdpHepSink, JoinHandle<()>, UnboundedReceiver<Vec<u8>>) {
    let mut cfg = UdpHepSinkConfig::new(loopback(9060));
    cfg.queue_capacity = queue_capacity;
    let (sink, worker) = UdpHepSink::open(&cfg);
    let (network, collector) = tokio::sync::mpsc::unbounded_channel();
    (sink, tokio::spawn(drive(worker, network)), collector)
}

#[test]
fn udp_sink_delivers_an_encoded_packet_a_collector_can_decode() {
    run(async {
        let (sink, worker, mut collector) = start(DEFAULT_QUEUE_CAPACITY);

        let pkt = sample_packet();
        sink.send(pkt.clone());

        let buf = timeout(Duration::from_secs(1), collector.recv())
            .await
            .expect("receive within 1s")
            .expect("recv ok");

        let decoded = HepPacket::decode(&buf).expect("decode");
        assert_eq!(decoded, pkt);
        assert_eq!(sink.sent(), 1, "sent counter ticks on success");
        assert_eq!(sink.drops(), 0, "no drops on a happy path");

        // Dropping the sink closes the queue and lets the worker exit.
        drop(sink);
        timeout(Duration::from_secs(1), worker)
            .await
            .expect("worker exits within 1s")
            .expect("worker join");
    });
}

#[test]
fn full_queue_drops_count_correctly() {
    run(async {
        let (sink, worker, _collector) = start(1);

        // Saturate the queue, so that the worker cannot drain it between sends.
        let pkt = sample_packet();
        for _ in 0..1000 {
            sink.send(pkt.clone());
        }

        // Give the worker a moment to drain anything that did fit.
        tokio::time::sleep(Duration::from_millis(50)).await;

        let sent = sink.sent();
        let drops = sink.drops();
        assert!(drops > 0, "queue full should produce drops; got {drops}");
        assert!(
            sent + drops <= 1000,
            "sent ({sent}) + drops ({drops}) should not exceed offered (1000)"
        );

        drop(sink);
        timeout(Duration::from_secs(1), worker)
            .await
            .expect("worker exits")
            .expect("join");
    });
}

#[test]
fn shutdown_flushes_the_queued_backlog() {
    run(async {
        let (sink, worker, mut collector) = start(256);

        // A long-lived clone keeps a sender alive, so the queue would never close
        // on its own.
        let _immortal = sink.clone();

        const N: usize = 100;
        for _ in 0..N {
            sink.send(sample_packet());
        }
        assert_eq!(sink.drops(), 0, "queue was sized to hold the burst");

        sink.shutdown();
        timeout(Duration::from_secs(5), worker)
            .await
            .expect("worker drains and exits within 5s")
            .expect("worker join");

        assert_eq!(sink.sent(), N as u64, "all queued packets flushed on shutdown");

        // They are on the wire, not just counted.
        let mut received = 0;
        while received < N {
            match timeout(Duration::from_secs(1), collector.recv()).await {
                Ok(Some(_)) => received += 1,
                _ => break,
            }
        }
        assert_eq!(received, N, "collector received the full flushed backlog");
    });
}

#[test]
fn send_after_shutdown_is_dropped_not_lost_silently() {
    run(async {
        let (sink, worker, _collector) = start(DEFAULT_QUEUE_CAPACITY);

        sink.shutdown();
        timeout(Duration::from_secs(2), worker)
            .await
            .expect("worker exits")
            .expect("join");

        // The queue is closed; a packet can no longer enter it.
        sink.send(sample_packet());
        assert_eq!(sink.sent(), 0);
        assert_eq!(sink.drops(), 1, "post-shutdown send is a drop, not a wedge");
    });
}

#[test]
fn config_has_sensible_defaults() {
    let cfg = UdpHepSinkConfig::new(loopback(9060));
    assert_eq!(cfg.collector, loopback(9060));
    assert_eq!(cfg.queue_capacity, 256);
    assert_eq!(cfg.warn_throttle, Duration::from_secs(60).as_nanos());
    assert!(cfg.is_valid());
}

#[test]
fn capacity_must_be_one_that_a_queue_can_have() {
    let mut cfg = UdpHepSinkConfig::new(loopback(9060));
    for (capacity, valid) in [
        (0, false),
        (1, true),
        (usize::MAX / 8, true),
        (usize::MAX / 8 + 1, false),
    ] {
        cfg.queue_capacity = capacity;
        assert_eq!(cfg.is_valid(), valid, "{capacity}");
    }
    // The largest capacity does make a queue.
    cfg.queue_capacity = usize::MAX / 8;
    let (sink, _worker) = UdpHepSink::open(&cfg);
    sink.send(sample_packet());
    assert_eq!(sink.drops(), 0);
}

#[test]
fn local_socket_is_of_the_family_of_the_collector() {
    let v4 = UdpHepSinkConfig::new(loopback(9060));
    assert_eq!(v4.bind_addr(), SocketAddr::V4 { octets: [0; 4], port: 0 });
    let collector = SocketAddr::V6 { octets: [1; 16], port: 9060, flowinfo: 3, scope_id: 4 };
    let v6 = UdpHepSinkConfig::new(collector);
    assert_eq!(
        v6.bind_addr(),
        SocketAddr::V6 { octets: [0; 16], port: 0, flowinfo: 0, scope_id: 0 }
    );
}

#[test]
fn socket_errors_become_sink_errors() {
    let error = std::io::Error::new(std::io::ErrorKind::AddrInUse, "taken");
    let UdpHepSinkError::Bind(inner) = UdpHepSinkError::from(error);
    assert_eq!(inner.kind(), std::io::ErrorKind::AddrInUse);
}

#[test]
fn queue_holds_as_many_packets_as_configured() {
    let mut cfg = UdpHepSinkConfig::new(loopback(9060));
    cfg.queue_capacity = 3;
    let (sink, mut worker) = UdpHepSink::open(&cfg);
    for id in 0..5 {
        let mut pkt = sample_packet();
        pkt.capture_id = id;
        sink.send(pkt);
    }
    assert_eq!(sink.drops(), 2);
    for id in 0..3 {
        assert_eq!(worker.queue.try_recv().expect("queued").capture_id, id);
    }
    assert!(worker.queue.try_recv().is_err());
}

#[test]
fn counters_start_at_zero() {
    let (sink, _worker) = UdpHepSink::open(&UdpHepSinkConfig::new(loopback(9060)));
    assert_eq!((sink.drops(), sink.sent()), (0, 0));
}

#[test]
fn published_count_is_the_successes() {
    let (sink, mut worker) = UdpHepSink::open(&UdpHepSinkConfig::new(loopback(9060)));
    for now in 0..10 {
        worker.step(WorkerEvent::Received(sample_packet()));
        if now % 3 == 0 {
            worker.step(WorkerEvent::SendFailed { now });
        } else {
            worker.step(WorkerEvent::SendSucceeded);
        }
    }
    assert_eq!(sink.sent(), 6);
    assert_eq!(sink.drops(), 0);
}

#[test]
fn clones_share_queue_and_counters() {
    let mut cfg = UdpHepSinkConfig::new(loopback(9060));
    cfg.queue_capacity = 1;
    let (sink, mut worker) = UdpHepSink::open(&cfg);
    let copy = sink.clone();
    sink.send(sample_packet());
    copy.send(sample_packet());
    assert_eq!((sink.drops(), copy.drops()), (1, 1));
    worker.step(WorkerEvent::SendSucceeded);
    assert_eq!((sink.sent(), copy.sent()), (1, 1));
}

#[test]
fn shutdown_request_closes_the_queue_and_keeps_the_backlog() {
    let (sink, mut worker) = UdpHepSink::open(&UdpHepSinkConfig::new(loopback(9060)));
    sink.send(sample_packet());
    assert_eq!(worker.step(WorkerEvent::ShutdownRequested), WorkerAction::CloseQueue);
    sink.send(sample_packet());
    assert_eq!(sink.drops(), 1);
    let packet = worker.queue.try_recv().expect("backlog");
    assert_eq!(
        worker.step(WorkerEvent::Received(packet)),
        WorkerAction::Transmit(sample_packet().encode())
    );
    worker.step(WorkerEvent::SendSucceeded);
    assert_eq!(sink.sent(), 1);
    assert!(worker.queue.try_recv().is_err());
}

#[test]
fn packet_for_a_worker_that_is_gone_is_a_drop() {
    let (sink, worker) = UdpHepSink::open(&UdpHepSinkConfig::new(loopback(9060)));
    drop(worker);
    let handle: HepSinkHandle = Arc::new(sink.clone());
    handle.send(sample_packet());
    assert_eq!(sink.drops(), 1);
    assert_eq!(sink.sent(), 0);
}

#[test]
fn failed_sends_are_not_counted() {
    let (sink, mut worker) = UdpHepSink::open(&UdpHepSinkConfig::new(loopback(9060)));
    let action = worker.step(WorkerEvent::SendFailed { now: 1 });
    assert_eq!(action, WorkerAction::Report { warn: true });
    let action = worker.step(WorkerEvent::SendFailed { now: 2 });
    assert_eq!(action, WorkerAction::Report { warn: false });
    assert_eq!(sink.sent(), 0);
}

#[test]
fn refused_packets_are_drops() {
    assert_eq!(Offered::Queued.drops(), 0);
    assert_eq!(Offered::QueueFull(sample_packet()).drops(), 1);
    assert_eq!(Offered::QueueClosed(sample_packet()).drops(), 1);
}
