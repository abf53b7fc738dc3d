//! [`HepPacket`], the in-memory form of one HEP3 message.

use vstd::prelude::*;

use crate::addr::SocketAddr;
use crate::time::Timestamp;

verus! {

/// One HEP3 packet.
///
/// Fields map onto the standard chunk types. The optional fields correspond to
/// chunks that a packet may do without: the correlation ID and the password.
#[derive(Debug, Clone, PartialEq, Eq)]
pub struct HepPacket {
    /// Chunk 0x000C, Capture Agent ID. The collector uses it to tell apart
    /// several agents that report into the same Homer.
    pub capture_id: u32,
    /// Chunk 0x000E, Authenticate Key: HEPlify-Server's shared password. `None`
    /// when the collector requires no authentication.
    pub capture_password: Option<String>,
    /// Chunk 0x000B, Protocol Type. Tells the collector how to parse `payload`.
    pub protocol: HepProtocol,
    /// Chunk 0x0002, IP Protocol ID. The transport that carried the captured
    /// payload, not the one that carries the HEP packet.
    pub transport: IpProto,
    /// Source of the captured packet (chunks 0x0001, 0x0003 or 0x0005, 0x0007).
    pub src: SocketAddr,
    /// Destination of the captured packet (chunks 0x0004 or 0x0006, 0x0008).
    pub dst: SocketAddr,
    /// Chunks 0x0009 and 0x000A, wall-clock time of the capture. An instant
    /// before the Unix epoch travels as the epoch itself.
    pub timestamp: Timestamp,
    /// Chunk 0x0011, Correlation ID: the string by which Homer stitches SIP,
    /// RTCP, log and CDR records into one call view, usually the SIP Call-ID.
    pub correlation_id: Option<String>,
    /// Chunk 0x000F, the captured payload itself. For SIP the raw message, for
    /// RTCP the RTCP packet, for logs UTF-8 text.
    pub payload: Vec<u8>,
}

/// What a [`HepPacket`] says: the same fields, with texts as sequences of
/// characters and the payload as a sequence of bytes.
#[verifier::ext_equal]
pub struct PacketView {
    pub capture_id: u32,
    pub capture_password: Option<Seq<char>>,
    pub protocol: HepProtocol,
    pub transport: IpProto,
    pub src: SocketAddr,
    pub dst: SocketAddr,
    pub timestamp: Timestamp,
    pub correlation_id: Option<Seq<char>>,
    pub payload: Seq<u8>,
}

/// The characters of a text that may be absent.
pub open spec fn text_view(text: Option<String>) -> Option<Seq<char>> {
    match text {
        Some(s) => Some(s@),
        None => None,
    }
}

impl View for HepPacket {
    type V = PacketView;

    open spec fn view(&self) -> PacketView {
        PacketView {
            capture_id: self.capture_id,
            capture_password: text_view(self.capture_password),
            protocol: self.protocol,
            transport: self.transport,
            src: self.src,
            dst: self.dst,
            timestamp: self.timestamp,
            correlation_id: text_view(self.correlation_id),
            payload: self.payload@,
        }
    }
}

/// Chunk 0x000B values. The numeric values are wire-stable.
#[derive(Debug, Clone, Copy, PartialEq, Eq, Hash)]
#[non_exhaustive]
pub enum HepProtocol {
    /// 0x01: SIP signaling. Most common type.
    Sip,
    /// 0x02: XMPP.
    Xmpp,
    /// 0x03: SDP (rarely used standalone; usually inside SIP).
    Sdp,
    /// 0x04: RTP. The captured payload is the RTP packet.
    Rtp,
    /// 0x05: RTCP report.
    Rtcp,
    /// 0x06: MGCP.
    Mgcp,
    /// 0x07: Megaco / H.248.
    Megaco,
    /// 0x08: M2UA / SS7.
    M2ua,
    /// 0x09: M3UA / SS7.
    M3ua,
    /// 0x0A: IAX.
    Iax,
    /// 0x0B: H.323/H.225.
    H323,
    /// 0x0C: H.321 Q.931.
    H321,
    /// 0x0D: M2PA / SS7.
    M2pa,
    /// 0x22 (34): MOS / call-quality report. Vendor convention.
    Mos,
    /// 0x20 (32): RTP-QoS summary. Vendor convention used by Homer.
    RtpQos,
    /// 0x64 (100): application log line, for significant lifecycle events.
    Log,
    /// 0x65 (101): Call Detail Record. Vendor convention for end-of-call
    /// summaries.
    Cdr,
    /// 0x66 (102): STIR/SHAKEN verification verdict (`verstat`). Vendor
    /// convention: one chunk per inbound call when verification is enabled,
    /// with the verdict as JSON in the payload.
    Verstat,
}

impl HepProtocol {
    /// The byte that stands for the protocol on the wire.
    pub open spec fn wire_byte(self) -> u8 {
        match self {
            HepProtocol::Sip => 1,
            HepProtocol::Xmpp => 2,
            HepProtocol::Sdp => 3,
            HepProtocol::Rtp => 4,
            HepProtocol::Rtcp => 5,
            HepProtocol::Mgcp => 6,
            HepProtocol::Megaco => 7,
            HepProtocol::M2ua => 8,
            HepProtocol::M3ua => 9,
            HepProtocol::Iax => 10,
            HepProtocol::H323 => 11,
            HepProtocol::H321 => 12,
            HepProtocol::M2pa => 13,
            HepProtocol::Mos => 34,
            HepProtocol::RtpQos => 32,
            HepProtocol::Log => 100,
            HepProtocol::Cdr => 101,
            HepProtocol::Verstat => 102,
        }
    }

    /// The protocol that a wire byte stands for, if it stands for any.
    pub open spec fn of_byte(byte: u8) -> Option<HepProtocol> {
        match byte {
            1 => Some(HepProtocol::Sip),
            2 => Some(HepProtocol::Xmpp),
            3 => Some(HepProtocol::Sdp),
            4 => Some(HepProtocol::Rtp),
            5 => Some(HepProtocol::Rtcp),
            6 => Some(HepProtocol::Mgcp),
            7 => Some(HepProtocol::Megaco),
            8 => Some(HepProtocol::M2ua),
            9 => Some(HepProtocol::M3ua),
            10 => Some(HepProtocol::Iax),
            11 => Some(HepProtocol::H323),
            12 => Some(HepProtocol::H321),
            13 => Some(HepProtocol::M2pa),
            32 => Some(HepProtocol::RtpQos),
            34 => Some(HepProtocol::Mos),
            100 => Some(HepProtocol::Log),
            101 => Some(HepProtocol::Cdr),
            102 => Some(HepProtocol::Verstat),
            _ => None,
        }
    }

    /// Convert from the wire byte. `None` for a byte that stands for no
    /// protocol, so that the caller can decide whether to discard it or to
    /// surface it. See [`HepProtocol::from_u8_lossy`] for the best-effort form.
    pub fn from_u8(byte: u8) -> (protocol: Option<HepProtocol>)
        ensures
            protocol == HepProtocol::of_byte(byte),
            protocol matches Some(p) ==> p.wire_byte() == byte,
    {
        let protocol = match byte {
            1 => HepProtocol::Sip,
            2 => HepProtocol::Xmpp,
            3 => HepProtocol::Sdp,
            4 => HepProtocol::Rtp,
            5 => HepProtocol::Rtcp,
            6 => HepProtocol::Mgcp,
            7 => HepProtocol::Megaco,
            8 => HepProtocol::M2ua,
            9 => HepProtocol::M3ua,
            10 => HepProtocol::Iax,
            11 => HepProtocol::H323,
            12 => HepProtocol::H321,
            13 => HepProtocol::M2pa,
            32 => HepProtocol::RtpQos,
            34 => HepProtocol::Mos,
            100 => HepProtocol::Log,
            101 => HepProtocol::Cdr,
            102 => HepProtocol::Verstat,
            _ => return None,
        };
        Some(protocol)
    }

    /// Convert from the wire byte, with a byte that stands for no protocol
    /// taken as [`HepProtocol::Sip`].
    pub fn from_u8_lossy(byte: u8) -> (protocol: HepProtocol)
        ensures
            protocol == (match HepProtocol::of_byte(byte) {
                Some(p) => p,
                None => HepProtocol::Sip,
            }),
    {
        match HepProtocol::from_u8(byte) {
            Some(protocol) => protocol,
            None => HepProtocol::Sip,
        }
    }

    /// Wire byte.
    pub fn as_u8(self) -> (byte: u8)
        ensures
            byte == self.wire_byte(),
    {
        match self {
            HepProtocol::Sip => 1,
            HepProtocol::Xmpp => 2,
            HepProtocol::Sdp => 3,
            HepProtocol::Rtp => 4,
            HepProtocol::Rtcp => 5,
            HepProtocol::Mgcp => 6,
            HepProtocol::Megaco => 7,
            HepProtocol::M2ua => 8,
            HepProtocol::M3ua => 9,
            HepProtocol::Iax => 10,
            HepProtocol::H323 => 11,
            HepProtocol::H321 => 12,
            HepProtocol::M2pa => 13,
            HepProtocol::Mos => 34,
            HepProtocol::RtpQos => 32,
            HepProtocol::Log => 100,
            HepProtocol::Cdr => 101,
            HepProtocol::Verstat => 102,
        }
    }
}

/// Chunk 0x0002 values: the part of IANA's protocol numbers that HEP carries.
#[derive(Debug, Clone, Copy, PartialEq, Eq, Hash)]
#[non_exhaustive]
pub enum IpProto {
    /// IPPROTO_TCP.
    Tcp,
    /// IPPROTO_UDP.
    Udp,
    /// IPPROTO_SCTP. Rare but valid.
    Sctp,
}

impl IpProto {
    /// The byte that stands for the transport on the wire.
    pub open spec fn wire_byte(self) -> u8 {
        match self {
            IpProto::Tcp => 6,
            IpProto::Udp => 17,
            IpProto::Sctp => 132,
        }
    }

    /// The transport that a wire byte stands for, if it stands for any.
    pub open spec fn of_byte(byte: u8) -> Option<IpProto> {
        match byte {
            6 => Some(IpProto::Tcp),
            17 => Some(IpProto::Udp),
            132 => Some(IpProto::Sctp),
            _ => None,
        }
    }

    /// Convert from the wire byte. `None` for a byte that stands for no
    /// transport.
    pub fn from_u8(byte: u8) -> (transport: Option<IpProto>)
        ensures
            transport == IpProto::of_byte(byte),
            transport matches Some(t) ==> t.wire_byte() == byte,
    {
        let transport = match byte {
            6 => IpProto::Tcp,
            17 => IpProto::Udp,
            132 => IpProto::Sctp,
            _ => return None,
        };
        Some(transport)
    }

    /// Wire byte.
    pub fn as_u8(self) -> (byte: u8)
        ensures
            byte == self.wire_byte(),
    {
        match self {
            IpProto::Tcp => 6,
            IpProto::Udp => 17,
            IpProto::Sctp => 132,
        }
    }
}

} // verus!
