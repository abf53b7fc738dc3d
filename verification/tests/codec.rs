use hep_rs::chunk::{CHUNK_HEADER_LEN, HEADER_LEN, MAGIC, VENDOR_GENERIC};
use hep_rs::{
    DecodeError, HepPacket, HepProtocol, IpProto, SocketAddr, StandardChunk, Timestamp,
};

fn v4(octets: [u8; 4], port: u16) -> SocketAddr {
    SocketAddr::V4 { octets, port }
}

fn fd00(last: u8, port: u16) -> SocketAddr {
    let mut octets = [0u8; 16];
    octets[0] = 0xfd;
    octets[15] = last;
    SocketAddr::V6 { octets, port, flowinfo: 0, scope_id: 0 }
}

fn sample_pkt(family_v6: bool) -> HepPacket {
    let (src, dst) = if family_v6 {
        (fd00(1, 5060), fd00(2, 5060))
    } else {
        (v4([10, 1, 2, 3], 5060), v4([10, 4, 5, 6], 5060))
    };
    HepPacket {
        capture_id: 2001,
        capture_password: Some("hunter2".into()),
        protocol: HepProtocol::Sip,
        transport: IpProto::Udp,
        src,
        dst,
        timestamp: Timestamp::after_epoch(1_700_000_000, 123_456_000),
        correlation_id: Some("call-abc".into()),
        payload: b"INVITE sip:a@b SIP/2.0\r\n\r\n".to_vec(),
    }
}

/// The bytes of one chunk.
fn chunk(vendor: u16, kind: u16, body: &[u8]) -> Vec<u8> {
    let mut v = Vec::new();
    v.extend_from_slice(&vendor.to_be_bytes());
    v.extend_from_slice(&kind.to_be_bytes());
    v.extend_from_slice(&((CHUNK_HEADER_LEN + body.len()) as u16).to_be_bytes());
    v.extend_from_slice(body);
    v
}

/// The bytes of one standard chunk.
fn standard(kind: StandardChunk, body: &[u8]) -> Vec<u8> {
    chunk(VENDOR_GENERIC, kind.as_u16(), body)
}

/// A packet of the given chunks.
fn frame(chunks: &[Vec<u8>]) -> Vec<u8> {
    let body = chunks.concat();
    let mut v = MAGIC.to_vec();
    v.extend_from_slice(&((HEADER_LEN + body.len()) as u16).to_be_bytes());
    v.extend_from_slice(&body);
    v
}

/// The chunks of an encoded packet.
fn chunks_of(bytes: &[u8]) -> Vec<Vec<u8>> {
    let mut chunks = Vec::new();
    let mut i = HEADER_LEN;
    while i < bytes.len() {
        let len = u16::from_be_bytes([bytes[i + 4], bytes[i + 5]]) as usize;
        chunks.push(bytes[i..i + len].to_vec());
        i += len;
    }
    chunks
}

/// A packet as it is encoded, with the body of one chunk replaced.
fn with_body(pkt: &HepPacket, kind: StandardChunk, body: &[u8]) -> Vec<u8> {
    let id = kind.as_u16().to_be_bytes();
    let chunks: Vec<Vec<u8>> = chunks_of(&pkt.encode())
        .into_iter()
        .map(|c| if c[2..4] == id { standard(kind, body) } else { c })
        .collect();
    frame(&chunks)
}

/// A packet as it is encoded, without one chunk.
fn without(pkt: &HepPacket, kind: StandardChunk) -> Vec<u8> {
    let id = kind.as_u16().to_be_bytes();
    let chunks: Vec<Vec<u8>> =
        chunks_of(&pkt.encode()).into_iter().filter(|c| c[2..4] != id).collect();
    frame(&chunks)
}

#[test]
fn round_trip_v4() {
    let pkt = sample_pkt(false);
    let bytes = pkt.encode();
    let decoded = HepPacket::decode(&bytes).expect("decode");
    assert_eq!(pkt, decoded);
}

#[test]
fn round_trip_v6() {
    let pkt = sample_pkt(true);
    let bytes = pkt.encode();
    let decoded = HepPacket::decode(&bytes).expect("decode");
    assert_eq!(pkt, decoded);
}

#[test]
fn round_trip_no_optional_chunks() {
    let mut pkt = sample_pkt(false);
    pkt.capture_password = None;
    pkt.correlation_id = None;
    let bytes = pkt.encode();
    let decoded = HepPacket::decode(&bytes).expect("decode");
    assert_eq!(pkt, decoded);
}

#[test]
fn header_is_well_formed() {
    let pkt = sample_pkt(false);
    let bytes = pkt.encode();
    assert_eq!(&bytes[..4], &MAGIC, "magic");
    let claimed = u16::from_be_bytes([bytes[4], bytes[5]]) as usize;
    assert_eq!(claimed, bytes.len(), "header length agrees with buffer");
}

#[test]
fn truncated_buffer_errors() {
    let err = HepPacket::decode(&[]).expect_err("too short");
    assert!(matches!(err, DecodeError::Truncated(0)));

    let err = HepPacket::decode(b"HEP").expect_err("less than 6");
    assert!(matches!(err, DecodeError::Truncated(3)));
}

#[test]
fn bad_magic_errors() {
    let bytes = [b'N', b'O', b'P', b'E', 0, 6];
    let err = HepPacket::decode(&bytes).expect_err("bad magic");
    assert!(matches!(
        err,
        DecodeError::BadMagic([b'N', b'O', b'P', b'E'])
    ));
}

#[test]
fn length_mismatch_errors() {
    let pkt = sample_pkt(false);
    let mut bytes = pkt.encode();
    // Force the header to claim a length one byte off; preserve buffer length so
    // that the mismatch path is taken.
    let lie = (bytes.len() + 1) as u16;
    bytes[4..6].copy_from_slice(&lie.to_be_bytes());
    let err = HepPacket::decode(&bytes).expect_err("mismatch");
    assert!(matches!(err, DecodeError::LengthMismatch { .. }));
}

#[test]
fn missing_required_chunk_errors() {
    // A header and an empty body has magic and length but no chunks.
    let mut bytes = Vec::new();
    bytes.extend_from_slice(&MAGIC);
    bytes.extend_from_slice(&6u16.to_be_bytes());
    let err = HepPacket::decode(&bytes).expect_err("missing chunks");
    assert!(matches!(err, DecodeError::MissingChunk(_)));
}

#[test]
fn unknown_protocol_byte_surfaces() {
    // Build a valid v4 packet, then patch the body of the ProtocolType chunk from
    // 1 (SIP) to 250 (reserved/unknown).
    let mut bytes = sample_pkt(false).encode();
    let mut i = HEADER_LEN;
    while i < bytes.len() {
        let kind = u16::from_be_bytes([bytes[i + 2], bytes[i + 3]]);
        let len = u16::from_be_bytes([bytes[i + 4], bytes[i + 5]]) as usize;
        if kind == StandardChunk::ProtocolType.as_u16() {
            bytes[i + CHUNK_HEADER_LEN] = 250;
            break;
        }
        i += len;
    }
    let err = HepPacket::decode(&bytes).expect_err("unknown protocol");
    assert!(matches!(err, DecodeError::UnsupportedHepProtocol(250)));
}

#[test]
fn payload_chunk_sits_last_on_the_wire() {
    // Useful for collectors that read chunk by chunk and want to defer payload
    // allocation.
    let pkt = sample_pkt(false);
    let bytes = pkt.encode();
    let mut last_kind = 0u16;
    let mut i = HEADER_LEN;
    while i < bytes.len() {
        last_kind = u16::from_be_bytes([bytes[i + 2], bytes[i + 3]]);
        let len = u16::from_be_bytes([bytes[i + 4], bytes[i + 5]]) as usize;
        i += len;
    }
    assert_eq!(last_kind, StandardChunk::Payload.as_u16());
}

#[test]
fn unknown_chunk_types_are_ignored_not_rejected() {
    // A chunk type 0x0099 that comes up one day should not poison decoding of the
    // rest of the packet.
    let pkt = sample_pkt(false);
    let mut bytes = pkt.encode();

    // Splice in a 7-byte unknown chunk (6-byte header and 1 byte of body) right
    // after the fixed header. Update total length.
    let unknown = {
        let mut v = Vec::new();
        v.extend_from_slice(&VENDOR_GENERIC.to_be_bytes());
        v.extend_from_slice(&0x0099u16.to_be_bytes()); // unknown kind
        v.extend_from_slice(&7u16.to_be_bytes()); // length 7
        v.push(0xAA);
        v
    };
    bytes.splice(HEADER_LEN..HEADER_LEN, unknown.iter().copied());
    let new_total = bytes.len() as u16;
    bytes[4..6].copy_from_slice(&new_total.to_be_bytes());

    let decoded = HepPacket::decode(&bytes).expect("ignored unknown chunk");
    assert_eq!(
        decoded, pkt,
        "decoded packet matches the pre-splice original"
    );
}

#[test]
fn encoded_bytes_are_exact() {
    let pkt = HepPacket {
        capture_id: 0x01020304,
        capture_password: Some("pw".into()),
        protocol: HepProtocol::Rtcp,
        transport: IpProto::Tcp,
        src: v4([10, 1, 2, 3], 5060),
        dst: v4([10, 4, 5, 6], 80),
        timestamp: Timestamp::after_epoch(0x0A0B0C0D, 7_999),
        correlation_id: Some("\u{e9}".into()),
        payload: vec![0xAA, 0xBB],
    };
    let expected: Vec<u8> = vec![
        0x48, 0x45, 0x50, 0x33, 0, 117, // HEP3, total length
        0, 0, 0, 0x01, 0, 7, 2, // IP family
        0, 0, 0, 0x02, 0, 7, 6, // IP protocol
        0, 0, 0, 0x03, 0, 10, 10, 1, 2, 3, // source
        0, 0, 0, 0x04, 0, 10, 10, 4, 5, 6, // destination
        0, 0, 0, 0x07, 0, 8, 0x13, 0xC4, // source port
        0, 0, 0, 0x08, 0, 8, 0, 80, // destination port
        0, 0, 0, 0x09, 0, 10, 0x0A, 0x0B, 0x0C, 0x0D, // seconds
        0, 0, 0, 0x0A, 0, 10, 0, 0, 0, 7, // microseconds
        0, 0, 0, 0x0B, 0, 7, 5, // protocol
        0, 0, 0, 0x0C, 0, 10, 1, 2, 3, 4, // capture agent
        0, 0, 0, 0x0E, 0, 8, b'p', b'w', // password
        0, 0, 0, 0x11, 0, 8, 0xC3, 0xA9, // correlation ID
        0, 0, 0, 0x0F, 0, 8, 0xAA, 0xBB, // payload
    ];
    assert_eq!(pkt.encode(), expected);
}

#[test]
fn encoded_length_is_the_sum_of_the_parts() {
    // 91 bytes for headers and fixed bodies, then addresses, texts and payload.
    let mut pkt = sample_pkt(false);
    assert_eq!(pkt.encode().len(), 91 + 2 * 4 + (6 + 7) + (6 + 8) + pkt.payload.len());
    pkt.capture_password = None;
    pkt.correlation_id = None;
    assert_eq!(pkt.encode().len(), 91 + 2 * 4 + pkt.payload.len());
    pkt.src = fd00(1, 1);
    pkt.dst = fd00(2, 2);
    assert_eq!(pkt.encode().len(), 91 + 2 * 16 + pkt.payload.len());
}

#[test]
fn empty_texts_and_payload_survive() {
    let mut pkt = sample_pkt(false);
    pkt.capture_password = Some(String::new());
    pkt.correlation_id = Some(String::new());
    pkt.payload = Vec::new();
    assert_eq!(HepPacket::decode(&pkt.encode()).expect("decode"), pkt);
}

#[test]
fn texts_beyond_ascii_survive() {
    let mut pkt = sample_pkt(false);
    pkt.capture_password = Some("p\u{e4}ss\u{1F511}".into());
    pkt.correlation_id = Some("\u{4f60}\u{597d}".into());
    assert_eq!(HepPacket::decode(&pkt.encode()).expect("decode"), pkt);
}

#[test]
fn largest_packet_that_fits_survives() {
    let mut pkt = sample_pkt(false);
    pkt.capture_password = None;
    pkt.correlation_id = None;
    pkt.payload = vec![7; 65535 - 99];
    let bytes = pkt.encode();
    assert_eq!(bytes.len(), 65535);
    assert_eq!(HepPacket::decode(&bytes).expect("decode"), pkt);
}

#[test]
fn oversized_packet_is_refused() {
    let mut pkt = sample_pkt(false);
    pkt.capture_password = None;
    pkt.correlation_id = None;
    pkt.payload = vec![7; 65536 - 99];
    let bytes = pkt.encode();
    assert_eq!(&bytes[4..6], &[0xFF, 0xFF]);
    let err = HepPacket::decode(&bytes).expect_err("oversized");
    assert!(matches!(err, DecodeError::LengthMismatch { claimed: 65535, actual: 65536 }));
}

#[test]
fn oversized_chunk_states_the_largest_length() {
    let mut pkt = sample_pkt(false);
    pkt.payload = vec![7; 65530];
    let bytes = pkt.encode();
    let at = bytes.len() - pkt.payload.len() - CHUNK_HEADER_LEN;
    assert_eq!(&bytes[at..at + 6], &[0, 0, 0, 0x0F, 0xFF, 0xFF]);
}

#[test]
fn mixed_families_are_refused() {
    let mut pkt = sample_pkt(false);
    pkt.dst = fd00(2, 5060);
    let err = HepPacket::decode(&pkt.encode()).expect_err("mixed");
    assert!(matches!(err, DecodeError::MissingChunk(StandardChunk::Ipv4Dst)));

    let mut pkt = sample_pkt(true);
    pkt.dst = v4([1, 2, 3, 4], 5060);
    let err = HepPacket::decode(&pkt.encode()).expect_err("mixed");
    assert!(matches!(err, DecodeError::MissingChunk(StandardChunk::Ipv6Dst)));
}

#[test]
fn instant_before_the_epoch_travels_as_the_epoch() {
    let mut pkt = sample_pkt(false);
    pkt.timestamp = Timestamp { before_epoch: true, secs: 17, nanos: 5 };
    let decoded = HepPacket::decode(&pkt.encode()).expect("decode");
    assert_eq!(decoded.timestamp, Timestamp::after_epoch(0, 0));
}

#[test]
fn nanoseconds_below_a_microsecond_are_cut_off() {
    let mut pkt = sample_pkt(false);
    pkt.timestamp = Timestamp::after_epoch(9, 123_456_789);
    let decoded = HepPacket::decode(&pkt.encode()).expect("decode");
    assert_eq!(decoded.timestamp, Timestamp::after_epoch(9, 123_456_000));
}

#[test]
fn seconds_beyond_32_bits_are_clamped() {
    let mut pkt = sample_pkt(false);
    pkt.timestamp = Timestamp::after_epoch(u32::MAX as u64 + 5, 1_000);
    let decoded = HepPacket::decode(&pkt.encode()).expect("decode");
    assert_eq!(decoded.timestamp, Timestamp::after_epoch(u32::MAX as u64, 1_000));
}

#[test]
fn microseconds_beyond_a_second_carry() {
    let bytes = with_body(
        &sample_pkt(false),
        StandardChunk::TimestampUsec,
        &2_500_000u32.to_be_bytes(),
    );
    let decoded = HepPacket::decode(&bytes).expect("decode");
    assert_eq!(
        decoded.timestamp,
        Timestamp { before_epoch: false, secs: 1_700_000_002, nanos: 500_000_000 }
    );
}

#[test]
fn microseconds_beyond_32_bits_of_nanoseconds_are_cut_off() {
    let bytes = with_body(
        &sample_pkt(false),
        StandardChunk::TimestampUsec,
        &u32::MAX.to_be_bytes(),
    );
    let decoded = HepPacket::decode(&bytes).expect("decode");
    assert_eq!(
        decoded.timestamp,
        Timestamp { before_epoch: false, secs: 1_700_000_004, nanos: 294_967_295 }
    );
}

#[test]
fn flow_information_and_scope_do_not_travel() {
    let mut pkt = sample_pkt(true);
    let plain = pkt.clone();
    let SocketAddr::V6 { octets, port, .. } = pkt.src else { panic!("v6") };
    pkt.src = SocketAddr::V6 { octets, port, flowinfo: 1, scope_id: 2 };
    assert_eq!(HepPacket::decode(&pkt.encode()).expect("decode"), plain);
}

#[test]
fn every_required_chunk_is_required() {
    let required = [
        StandardChunk::IpFamily,
        StandardChunk::IpProtocolId,
        StandardChunk::Ipv4Src,
        StandardChunk::Ipv4Dst,
        StandardChunk::SrcPort,
        StandardChunk::DstPort,
        StandardChunk::TimestampSec,
        StandardChunk::TimestampUsec,
        StandardChunk::ProtocolType,
        StandardChunk::CaptureAgentId,
        StandardChunk::Payload,
    ];
    for kind in required {
        match HepPacket::decode(&without(&sample_pkt(false), kind)) {
            Err(DecodeError::MissingChunk(missing)) => assert_eq!(missing, kind),
            other => panic!("{kind:?}: {other:?}"),
        }
    }
    for kind in [StandardChunk::Ipv6Src, StandardChunk::Ipv6Dst] {
        match HepPacket::decode(&without(&sample_pkt(true), kind)) {
            Err(DecodeError::MissingChunk(missing)) => assert_eq!(missing, kind),
            other => panic!("{kind:?}: {other:?}"),
        }
    }
}

#[test]
fn first_missing_chunk_is_reported() {
    let err = HepPacket::decode(&frame(&[standard(StandardChunk::IpFamily, &[2])]))
        .expect_err("missing");
    assert!(matches!(err, DecodeError::MissingChunk(StandardChunk::IpProtocolId)));
}

#[test]
fn bodies_of_the_wrong_size_are_refused() {
    let sizes = [
        (StandardChunk::IpFamily, 1),
        (StandardChunk::IpProtocolId, 1),
        (StandardChunk::Ipv4Src, 4),
        (StandardChunk::Ipv4Dst, 4),
        (StandardChunk::SrcPort, 2),
        (StandardChunk::DstPort, 2),
        (StandardChunk::TimestampSec, 4),
        (StandardChunk::TimestampUsec, 4),
        (StandardChunk::ProtocolType, 1),
        (StandardChunk::CaptureAgentId, 4),
        (StandardChunk::Ipv6Src, 16),
        (StandardChunk::Ipv6Dst, 16),
    ];
    for (kind, size) in sizes {
        for wrong in [size - 1, size + 1] {
            match HepPacket::decode(&frame(&[standard(kind, &vec![0; wrong])])) {
                Err(DecodeError::BadSize { kind: k, got, expected }) => {
                    assert_eq!((k, got, expected), (kind, wrong, size))
                }
                other => panic!("{kind:?}: {other:?}"),
            }
        }
    }
}

#[test]
fn texts_that_are_not_utf8_are_refused() {
    for kind in [StandardChunk::AuthKey, StandardChunk::CorrelationId] {
        match HepPacket::decode(&with_body(&sample_pkt(false), kind, &[b'a', 0xFF])) {
            Err(DecodeError::NotUtf8(k)) => assert_eq!(k, kind),
            other => panic!("{kind:?}: {other:?}"),
        }
    }
}

#[test]
fn unknown_transport_and_family_are_refused() {
    let pkt = sample_pkt(false);
    let err = HepPacket::decode(&with_body(&pkt, StandardChunk::IpProtocolId, &[1]))
        .expect_err("transport");
    assert!(matches!(err, DecodeError::UnsupportedIpProtocol(1)));
    let err =
        HepPacket::decode(&with_body(&pkt, StandardChunk::IpFamily, &[3])).expect_err("family");
    assert!(matches!(err, DecodeError::UnsupportedIpFamily(3)));
}

#[test]
fn undersized_chunk_is_refused() {
    let mut bytes = frame(&[standard(StandardChunk::IpFamily, &[2])]);
    bytes[HEADER_LEN + 5] = 5;
    let err = HepPacket::decode(&bytes).expect_err("undersized");
    assert!(matches!(err, DecodeError::UndersizedChunk(5)));
}

#[test]
fn chunks_past_the_end_are_refused() {
    // The body runs past the end.
    let mut bytes = frame(&[standard(StandardChunk::IpFamily, &[2])]);
    bytes[HEADER_LEN + 5] = 8;
    let err = HepPacket::decode(&bytes).expect_err("body");
    assert!(matches!(err, DecodeError::TruncatedChunk { offset: 6 }));

    // The header runs past the end.
    let bytes = frame(&[standard(StandardChunk::IpFamily, &[2]), vec![0, 0, 0]]);
    let err = HepPacket::decode(&bytes).expect_err("header");
    assert!(matches!(err, DecodeError::TruncatedChunk { offset: 13 }));
}

#[test]
fn first_error_in_wire_order_is_reported() {
    let bytes = frame(&[
        standard(StandardChunk::SrcPort, &[1]),
        standard(StandardChunk::IpFamily, &[]),
    ]);
    let err = HepPacket::decode(&bytes).expect_err("bad size");
    assert!(matches!(err, DecodeError::BadSize { kind: StandardChunk::SrcPort, .. }));
}

#[test]
fn vendor_chunks_are_skipped_anywhere() {
    let pkt = sample_pkt(false);
    let chunks = chunks_of(&pkt.encode());
    for i in 0..=chunks.len() {
        let mut spliced = chunks.clone();
        // The type of a standard chunk, with a body that would be refused.
        spliced.insert(i, chunk(0x0063, StandardChunk::IpFamily.as_u16(), &[1, 2, 3]));
        assert_eq!(HepPacket::decode(&frame(&spliced)).expect("decode"), pkt);
    }
}

#[test]
fn last_chunk_of_a_type_wins() {
    let pkt = sample_pkt(false);
    let mut chunks = chunks_of(&pkt.encode());
    chunks.insert(0, standard(StandardChunk::CaptureAgentId, &[9, 9, 9, 9]));
    assert_eq!(HepPacket::decode(&frame(&chunks)).expect("decode"), pkt);

    chunks.push(standard(StandardChunk::CaptureAgentId, &[0, 0, 0, 5]));
    assert_eq!(HepPacket::decode(&frame(&chunks)).expect("decode").capture_id, 5);
}

#[test]
fn buffer_that_decodes_is_a_frame_of_its_chunks() {
    let mut chunks = chunks_of(&sample_pkt(true).encode());
    chunks.insert(3, chunk(0x0063, 0x0001, &[1, 2, 3]));
    chunks.push(standard(StandardChunk::CaptureAgentId, &[0, 0, 0, 5]));
    let bytes = frame(&chunks);
    HepPacket::decode(&bytes).expect("decode");
    assert_eq!(chunks_of(&bytes), chunks);
    assert_eq!(frame(&chunks_of(&bytes)), bytes);
}

#[test]
fn written_integers_are_read_back() {
    let mut pkt = sample_pkt(false);
    for n in [0, 1, 0x01020304, u32::MAX] {
        pkt.capture_id = n;
        pkt.src = v4([10, 1, 2, 3], n as u16);
        let decoded = HepPacket::decode(&pkt.encode()).expect("decode");
        assert_eq!((decoded.capture_id, decoded.src.port()), (n, n as u16));
    }
}

#[test]
fn chunks_may_come_in_any_order() {
    let pkt = sample_pkt(true);
    let mut chunks = chunks_of(&pkt.encode());
    chunks.reverse();
    assert_eq!(HepPacket::decode(&frame(&chunks)).expect("decode"), pkt);
}

#[test]
fn addresses_of_the_other_family_are_ignored() {
    let pkt = sample_pkt(false);
    let mut chunks = chunks_of(&pkt.encode());
    chunks.push(standard(StandardChunk::Ipv6Src, &[1; 16]));
    assert_eq!(HepPacket::decode(&frame(&chunks)).expect("decode"), pkt);
}

#[test]
fn decoded_packet_encodes_to_an_equivalent_one() {
    let mut pkt = sample_pkt(true);
    pkt.timestamp = Timestamp::after_epoch(5, 1_999);
    let received = HepPacket::decode(&pkt.encode()).expect("decode");
    assert_eq!(received.encode(), pkt.encode());
    assert_eq!(HepPacket::decode(&received.encode()).expect("decode"), received);
}

#[test]
fn different_packets_have_different_encodings() {
    let pkt = sample_pkt(false);
    let mut other = pkt.clone();
    other.correlation_id = None;
    assert_ne!(pkt.encode(), other.encode());
    let mut other = pkt.clone();
    other.protocol = HepProtocol::Log;
    assert_ne!(pkt.encode(), other.encode());
}

#[test]
fn chunk_ids_are_those_of_the_wire_format() {
    let ids = [
        (StandardChunk::IpFamily, 0x0001),
        (StandardChunk::IpProtocolId, 0x0002),
        (StandardChunk::Ipv4Src, 0x0003),
        (StandardChunk::Ipv4Dst, 0x0004),
        (StandardChunk::Ipv6Src, 0x0005),
        (StandardChunk::Ipv6Dst, 0x0006),
        (StandardChunk::SrcPort, 0x0007),
        (StandardChunk::DstPort, 0x0008),
        (StandardChunk::TimestampSec, 0x0009),
        (StandardChunk::TimestampUsec, 0x000A),
        (StandardChunk::ProtocolType, 0x000B),
        (StandardChunk::CaptureAgentId, 0x000C),
        (StandardChunk::AuthKey, 0x000E),
        (StandardChunk::Payload, 0x000F),
        (StandardChunk::CorrelationId, 0x0011),
    ];
    for (kind, id) in ids {
        assert_eq!(kind.as_u16(), id);
    }
}

#[test]
fn timestamp_carries_nanoseconds() {
    assert_eq!(
        Timestamp::after_epoch(3, 2_000_000_001),
        Timestamp { before_epoch: false, secs: 5, nanos: 1 }
    );
}
