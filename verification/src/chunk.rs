//! The HEP3 frame: a header, then a row of chunks.
//!
//! A packet starts with the magic `HEP3` and its total length (two bytes, big
//! endian). Each chunk after that is a vendor ID, a type ID and the length of
//! the chunk, two bytes each, followed by the chunk's body.

use vstd::prelude::*;

use crate::bytes::be16;

verus! {

/// HEP3 magic: ASCII `H` `E` `P` `3`.
pub const MAGIC: [u8; 4] = [0x48, 0x45, 0x50, 0x33];

/// Bytes consumed by the fixed packet header (magic and total length).
pub const HEADER_LEN: usize = 6;

/// Bytes consumed by each chunk's header (vendor, type and length).
pub const CHUNK_HEADER_LEN: usize = 6;

/// Vendor ID of the standard chunk types. Custom chunks use other vendor IDs.
pub const VENDOR_GENERIC: u16 = 0x0000;

/// IP family chunk of an IPv4 packet.
pub const FAMILY_IPV4: u8 = 2;

/// IP family chunk of an IPv6 packet.
pub const FAMILY_IPV6: u8 = 10;

/// Standard chunk types (vendor `0x0000`). Their IDs are wire-stable.
#[derive(Debug, Clone, Copy, PartialEq, Eq, Hash)]
pub enum StandardChunk {
    /// IP protocol family: `2` for IPv4, `10` for IPv6.
    IpFamily,
    /// IP protocol ID: `6` TCP, `17` UDP, `132` SCTP.
    IpProtocolId,
    /// IPv4 source address (4 bytes, big-endian).
    Ipv4Src,
    /// IPv4 destination address (4 bytes, big-endian).
    Ipv4Dst,
    /// IPv6 source address (16 bytes).
    Ipv6Src,
    /// IPv6 destination address (16 bytes).
    Ipv6Dst,
    /// Source port (u16 BE).
    SrcPort,
    /// Destination port (u16 BE).
    DstPort,
    /// Timestamp seconds since Unix epoch (u32 BE).
    TimestampSec,
    /// Timestamp microseconds within the second (u32 BE).
    TimestampUsec,
    /// Protocol type, see [`crate::HepProtocol`].
    ProtocolType,
    /// Capture Agent ID (u32 BE).
    CaptureAgentId,
    /// HEPlify-Server shared-password chunk (variable-length string).
    AuthKey,
    /// Captured payload (variable length).
    Payload,
    /// Internal Correlation ID (variable-length string).
    CorrelationId,
}

impl StandardChunk {
    /// The type ID of the chunk on the wire.
    pub open spec fn id(self) -> u16 {
        match self {
            StandardChunk::IpFamily => 0x0001,
            StandardChunk::IpProtocolId => 0x0002,
            StandardChunk::Ipv4Src => 0x0003,
            StandardChunk::Ipv4Dst => 0x0004,
            StandardChunk::Ipv6Src => 0x0005,
            StandardChunk::Ipv6Dst => 0x0006,
            StandardChunk::SrcPort => 0x0007,
            StandardChunk::DstPort => 0x0008,
            StandardChunk::TimestampSec => 0x0009,
            StandardChunk::TimestampUsec => 0x000A,
            StandardChunk::ProtocolType => 0x000B,
            StandardChunk::CaptureAgentId => 0x000C,
            StandardChunk::AuthKey => 0x000E,
            StandardChunk::Payload => 0x000F,
            StandardChunk::CorrelationId => 0x0011,
        }
    }

    /// The standard chunk type with the given ID, if there is one.
    pub open spec fn of_id(id: u16) -> Option<StandardChunk> {
        match id {
            0x0001 => Some(StandardChunk::IpFamily),
            0x0002 => Some(StandardChunk::IpProtocolId),
            0x0003 => Some(StandardChunk::Ipv4Src),
            0x0004 => Some(StandardChunk::Ipv4Dst),
            0x0005 => Some(StandardChunk::Ipv6Src),
            0x0006 => Some(StandardChunk::Ipv6Dst),
            0x0007 => Some(StandardChunk::SrcPort),
            0x0008 => Some(StandardChunk::DstPort),
            0x0009 => Some(StandardChunk::TimestampSec),
            0x000A => Some(StandardChunk::TimestampUsec),
            0x000B => Some(StandardChunk::ProtocolType),
            0x000C => Some(StandardChunk::CaptureAgentId),
            0x000E => Some(StandardChunk::AuthKey),
            0x000F => Some(StandardChunk::Payload),
            0x0011 => Some(StandardChunk::CorrelationId),
            _ => None,
        }
    }

    /// Type ID on the wire.
    pub fn as_u16(self) -> (id: u16)
        ensures
            id == self.id(),
            StandardChunk::of_id(id) == Some(self),
    {
        match self {
            StandardChunk::IpFamily => 0x0001,
            StandardChunk::IpProtocolId => 0x0002,
            StandardChunk::Ipv4Src => 0x0003,
            StandardChunk::Ipv4Dst => 0x0004,
            StandardChunk::Ipv6Src => 0x0005,
            StandardChunk::Ipv6Dst => 0x0006,
            StandardChunk::SrcPort => 0x0007,
            StandardChunk::DstPort => 0x0008,
            StandardChunk::TimestampSec => 0x0009,
            StandardChunk::TimestampUsec => 0x000A,
            StandardChunk::ProtocolType => 0x000B,
            StandardChunk::CaptureAgentId => 0x000C,
            StandardChunk::AuthKey => 0x000E,
            StandardChunk::Payload => 0x000F,
            StandardChunk::CorrelationId => 0x0011,
        }
    }
}

/// One chunk of a packet.
#[verifier::ext_equal]
pub struct Chunk {
    pub vendor: u16,
    pub kind: u16,
    pub body: Seq<u8>,
}

impl Chunk {
    /// The chunk of a standard type with the given body.
    pub open spec fn standard(kind: StandardChunk, body: Seq<u8>) -> Chunk {
        Chunk { vendor: VENDOR_GENERIC, kind: kind.id(), body }
    }

    /// The standard type of the chunk, if it has one.
    pub open spec fn standard_type(self) -> Option<StandardChunk> {
        if self.vendor == VENDOR_GENERIC {
            StandardChunk::of_id(self.kind)
        } else {
            None
        }
    }

    /// Bytes that the chunk takes up, header and body.
    pub open spec fn wire_len(self) -> nat {
        CHUNK_HEADER_LEN as nat + self.body.len()
    }

    /// The bytes of the chunk.
    pub open spec fn wire_bytes(self) -> Seq<u8> {
        be16(self.vendor) + be16(self.kind) + be16(clamp_len(self.wire_len())) + self.body
    }
}

/// A length as its two-byte field holds it: 65535 stands for every length that
/// the field has no room for.
pub open spec fn clamp_len(len: nat) -> u16 {
    if len <= u16::MAX {
        len as u16
    } else {
        u16::MAX
    }
}

/// The bytes of a row of chunks.
pub open spec fn chunks_bytes(chunks: Seq<Chunk>) -> Seq<u8>
    decreases chunks.len(),
{
    if chunks.len() == 0 {
        seq![]
    } else {
        chunks_bytes(chunks.drop_last()) + chunks.last().wire_bytes()
    }
}

/// Bytes that a packet of the given chunks takes up, header included.
pub open spec fn frame_len(chunks: Seq<Chunk>) -> nat {
    HEADER_LEN as nat + chunks_bytes(chunks).len()
}

/// The bytes of a packet of the given chunks.
pub open spec fn frame(chunks: Seq<Chunk>) -> Seq<u8> {
    MAGIC@ + be16(clamp_len(frame_len(chunks))) + chunks_bytes(chunks)
}

} // verus!
