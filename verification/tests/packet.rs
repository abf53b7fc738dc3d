use hep_rs::{HepProtocol, IpAddr, IpProto, SocketAddr};

#[test]
fn hep_protocol_roundtrips_through_wire_byte() {
    for p in [
        HepProtocol::Sip,
        HepProtocol::Rtcp,
        HepProtocol::RtpQos,
        HepProtocol::Mos,
        HepProtocol::Log,
        HepProtocol::Cdr,
        HepProtocol::Verstat,
    ] {
        assert_eq!(HepProtocol::from_u8(p.as_u8()), Some(p));
    }
}

#[test]
fn verstat_is_wire_value_102() {
    // Wire-stable: 0x66. Locked so a future renumber is a visible diff.
    assert_eq!(HepProtocol::Verstat.as_u8(), 102);
    assert_eq!(HepProtocol::from_u8(102), Some(HepProtocol::Verstat));
}

#[test]
fn unknown_protocol_byte_is_none() {
    assert_eq!(HepProtocol::from_u8(250), None);
}

#[test]
fn protocol_bytes_are_those_of_the_wire_format() {
    let bytes = [
        (HepProtocol::Sip, 1),
        (HepProtocol::Xmpp, 2),
        (HepProtocol::Sdp, 3),
        (HepProtocol::Rtp, 4),
        (HepProtocol::Rtcp, 5),
        (HepProtocol::Mgcp, 6),
        (HepProtocol::Megaco, 7),
        (HepProtocol::M2ua, 8),
        (HepProtocol::M3ua, 9),
        (HepProtocol::Iax, 10),
        (HepProtocol::H323, 11),
        (HepProtocol::H321, 12),
        (HepProtocol::M2pa, 13),
        (HepProtocol::RtpQos, 32),
        (HepProtocol::Mos, 34),
        (HepProtocol::Log, 100),
        (HepProtocol::Cdr, 101),
        (HepProtocol::Verstat, 102),
    ];
    for (protocol, byte) in bytes {
        assert_eq!(protocol.as_u8(), byte);
        assert_eq!(HepProtocol::from_u8(byte), Some(protocol));
    }
    let known = (0..=255u8).filter(|b| HepProtocol::from_u8(*b).is_some()).count();
    assert_eq!(known, bytes.len());
}

#[test]
fn lossy_protocol_falls_back_to_sip() {
    assert_eq!(HepProtocol::from_u8_lossy(101), HepProtocol::Cdr);
    assert_eq!(HepProtocol::from_u8_lossy(250), HepProtocol::Sip);
}

#[test]
fn transport_bytes_are_those_of_iana() {
    for (transport, byte) in [(IpProto::Tcp, 6), (IpProto::Udp, 17), (IpProto::Sctp, 132)] {
        assert_eq!(transport.as_u8(), byte);
        assert_eq!(IpProto::from_u8(byte), Some(transport));
    }
    let known = (0..=255u8).filter(|b| IpProto::from_u8(*b).is_some()).count();
    assert_eq!(known, 3);
}

#[test]
fn socket_address_keeps_its_parts() {
    let addr = SocketAddr::new(IpAddr::V4([192, 0, 2, 1]), 5060);
    assert_eq!(addr, SocketAddr::V4 { octets: [192, 0, 2, 1], port: 5060 });
    assert_eq!(addr.ip(), IpAddr::V4([192, 0, 2, 1]));
    assert_eq!(addr.port(), 5060);

    let addr = SocketAddr::new(IpAddr::V6([7; 16]), 9);
    assert_eq!(addr, SocketAddr::V6 { octets: [7; 16], port: 9, flowinfo: 0, scope_id: 0 });
    assert_eq!(addr.ip(), IpAddr::V6([7; 16]));
    assert_eq!(addr.port(), 9);
}
