//! From a packet to its bytes.

use vstd::prelude::*;
use vstd::utf8::encode_utf8;

use crate::addr::IpAddr;
use crate::bytes::{be16, be32, put_be16, put_be32, put_bytes};
use crate::chunk::{
    chunks_bytes, clamp_len, frame, Chunk, StandardChunk, CHUNK_HEADER_LEN, FAMILY_IPV4, FAMILY_IPV6,
    HEADER_LEN, MAGIC, VENDOR_GENERIC,
};
use crate::packet::{HepPacket, PacketView};
use crate::time::{Timestamp, NANOS_PER_MICRO};

verus! {

/// The IP family of an address, as the IP family chunk states it.
pub open spec fn family_of(ip: IpAddr) -> u8 {
    match ip {
        IpAddr::V4(_) => FAMILY_IPV4,
        IpAddr::V6(_) => FAMILY_IPV6,
    }
}

/// The chunk that carries the source or the destination address.
pub open spec fn ip_chunk(ip: IpAddr, is_src: bool) -> Chunk {
    let kind = match ip {
        IpAddr::V4(_) => if is_src {
            StandardChunk::Ipv4Src
        } else {
            StandardChunk::Ipv4Dst
        },
        IpAddr::V6(_) => if is_src {
            StandardChunk::Ipv6Src
        } else {
            StandardChunk::Ipv6Dst
        },
    };
    Chunk::standard(kind, ip.octets())
}

/// The chunk of a text, if there is a text.
pub open spec fn text_chunk(kind: StandardChunk, text: Option<Seq<char>>) -> Seq<Chunk> {
    match text {
        Some(chars) => seq![Chunk::standard(kind, encode_utf8(chars))],
        None => seq![],
    }
}

/// Seconds of a timestamp as they travel: zero before the epoch, and at most
/// what four bytes hold.
pub open spec fn wire_secs(t: Timestamp) -> u32 {
    if t.before_epoch {
        0
    } else if t.secs <= u32::MAX {
        t.secs as u32
    } else {
        u32::MAX
    }
}

/// Microseconds of a timestamp as they travel: zero before the epoch.
pub open spec fn wire_usecs(t: Timestamp) -> u32 {
    if t.before_epoch {
        0
    } else {
        t.nanos / NANOS_PER_MICRO
    }
}

/// The chunks of fixed size that every packet has, in their order on the wire.
pub open spec fn envelope_chunks(p: PacketView) -> Seq<Chunk> {
    seq![
        Chunk::standard(StandardChunk::IpFamily, seq![family_of(p.src.ip())]),
        Chunk::standard(StandardChunk::IpProtocolId, seq![p.transport.wire_byte()]),
        ip_chunk(p.src.ip(), true),
        ip_chunk(p.dst.ip(), false),
        Chunk::standard(StandardChunk::SrcPort, be16(p.src.port())),
        Chunk::standard(StandardChunk::DstPort, be16(p.dst.port())),
        Chunk::standard(StandardChunk::TimestampSec, be32(wire_secs(p.timestamp))),
        Chunk::standard(StandardChunk::TimestampUsec, be32(wire_usecs(p.timestamp))),
        Chunk::standard(StandardChunk::ProtocolType, seq![p.protocol.wire_byte()]),
        Chunk::standard(StandardChunk::CaptureAgentId, be32(p.capture_id)),
    ]
}

/// The chunks of a packet, in their order on the wire. The payload comes last,
/// so that a collector can log the envelope before it reads the payload.
pub open spec fn packet_chunks(p: PacketView) -> Seq<Chunk> {
    envelope_chunks(p) + text_chunk(StandardChunk::AuthKey, p.capture_password) + text_chunk(
        StandardChunk::CorrelationId,
        p.correlation_id,
    ) + seq![Chunk::standard(StandardChunk::Payload, p.payload)]
}

/// The bytes of a packet.
pub open spec fn encoding(p: PacketView) -> Seq<u8> {
    frame(packet_chunks(p))
}

/// A packet under construction: the total length is still open.
spec fn open_frame(chunks: Seq<Chunk>) -> Seq<u8> {
    MAGIC@ + be16(0) + chunks_bytes(chunks)
}

/// Appending the bytes of a chunk to a packet under construction adds the chunk.
proof fn lemma_append_chunk(before: Seq<u8>, after: Seq<u8>, chunks: Seq<Chunk>, chunk: Chunk)
    requires
        before == open_frame(chunks),
        after == before + chunk.wire_bytes(),
    ensures
        after == open_frame(chunks.push(chunk)),
{
    assert(chunks.push(chunk).drop_last() =~= chunks);
    assert(after =~= open_frame(chunks.push(chunk)));
}

impl HepPacket {
    /// Encode the packet to a freshly-allocated buffer ready for the wire.
    ///
    /// Always succeeds. The total length and the length of a chunk each have
    /// two bytes: a packet or a chunk that is longer states 65535, and no
    /// decoder takes such a packet. It is up to the caller to keep payloads
    /// below that.
    pub fn encode(&self) -> (out: Vec<u8>)
        ensures
            out@ == encoding(self@),
    {
        let mut out: Vec<u8> = Vec::with_capacity(
            self.payload.len().saturating_add(HEADER_LEN + 96),
        );
        let ghost p = self@;
        let ghost mut cs: Seq<Chunk> = seq![];

        // The total length is filled in once it is known.
        put_bytes(&mut out, &MAGIC);
        put_be16(&mut out, 0);
        assert(out@ =~= open_frame(cs));

        self.write_envelope(&mut out);
        proof {
            cs = envelope_chunks(p);
        }

        if let Some(pw) = self.capture_password.as_ref() {
            let ghost before = out@;
            write_chunk_bytes(&mut out, StandardChunk::AuthKey, pw.as_str().as_bytes());
            proof {
                let c = text_chunk(StandardChunk::AuthKey, p.capture_password)[0];
                lemma_append_chunk(before, out@, cs, c);
                cs = cs.push(c);
            }
        }
        assert(cs =~= envelope_chunks(p) + text_chunk(StandardChunk::AuthKey, p.capture_password));
        if let Some(corr) = self.correlation_id.as_ref() {
            let ghost before = out@;
            write_chunk_bytes(&mut out, StandardChunk::CorrelationId, corr.as_str().as_bytes());
            proof {
                let c = text_chunk(StandardChunk::CorrelationId, p.correlation_id)[0];
                lemma_append_chunk(before, out@, cs, c);
                cs = cs.push(c);
            }
        }

        // Payload last: collectors that want to log the envelope first read it
        // before the (potentially large) payload.
        let ghost before = out@;
        write_chunk_bytes(&mut out, StandardChunk::Payload, self.payload.as_slice());
        proof {
            let c = Chunk::standard(StandardChunk::Payload, p.payload);
            lemma_append_chunk(before, out@, cs, c);
            cs = cs.push(c);
        }
        assert(cs =~= packet_chunks(p));

        let len: u16 = clamped_len(out.len());
        out[4] = (len / 0x100) as u8;
        out[5] = (len % 0x100) as u8;
        assert(out@ =~= frame(cs));
        out
    }

    /// Append the chunks that every packet has before its texts and its payload.
    fn write_envelope(&self, out: &mut Vec<u8>)
        requires
            old(out)@ == open_frame(seq![]),
        ensures
            final(out)@ == open_frame(envelope_chunks(self@)),
    {
        let ghost p = self@;
        let ghost mut cs: Seq<Chunk> = seq![];

        // The family is that of the source. Source and destination share it in
        // a real capture; that is not enforced here.
        let family: u8 = match self.src.ip() {
            IpAddr::V4(_) => FAMILY_IPV4,
            IpAddr::V6(_) => FAMILY_IPV6,
        };
        let ghost before = out@;
        write_chunk_u8(out, StandardChunk::IpFamily, family);
        proof {
            let c = Chunk::standard(StandardChunk::IpFamily, seq![family]);
            lemma_append_chunk(before, out@, cs, c);
            cs = cs.push(c);
        }
        let ghost before = out@;
        write_chunk_u8(out, StandardChunk::IpProtocolId, self.transport.as_u8());
        proof {
            let c = Chunk::standard(StandardChunk::IpProtocolId, seq![p.transport.wire_byte()]);
            lemma_append_chunk(before, out@, cs, c);
            cs = cs.push(c);
        }

        let ghost before = out@;
        write_ip_chunk(out, self.src.ip(), true);
        proof {
            let c = ip_chunk(p.src.ip(), true);
            lemma_append_chunk(before, out@, cs, c);
            cs = cs.push(c);
        }
        let ghost before = out@;
        write_ip_chunk(out, self.dst.ip(), false);
        proof {
            let c = ip_chunk(p.dst.ip(), false);
            lemma_append_chunk(before, out@, cs, c);
            cs = cs.push(c);
        }

        let ghost before = out@;
        write_chunk_u16(out, StandardChunk::SrcPort, self.src.port());
        proof {
            let c = Chunk::standard(StandardChunk::SrcPort, be16(p.src.port()));
            lemma_append_chunk(before, out@, cs, c);
            cs = cs.push(c);
        }
        let ghost before = out@;
        write_chunk_u16(out, StandardChunk::DstPort, self.dst.port());
        proof {
            let c = Chunk::standard(StandardChunk::DstPort, be16(p.dst.port()));
            lemma_append_chunk(before, out@, cs, c);
            cs = cs.push(c);
        }

        let (sec, usec): (u32, u32) = unix_split(self.timestamp);
        let ghost before = out@;
        write_chunk_u32(out, StandardChunk::TimestampSec, sec);
        proof {
            let c = Chunk::standard(StandardChunk::TimestampSec, be32(sec));
            lemma_append_chunk(before, out@, cs, c);
            cs = cs.push(c);
        }
        let ghost before = out@;
        write_chunk_u32(out, StandardChunk::TimestampUsec, usec);
        proof {
            let c = Chunk::standard(StandardChunk::TimestampUsec, be32(usec));
            lemma_append_chunk(before, out@, cs, c);
            cs = cs.push(c);
        }

        let ghost before = out@;
        write_chunk_u8(out, StandardChunk::ProtocolType, self.protocol.as_u8());
        proof {
            let c = Chunk::standard(StandardChunk::ProtocolType, seq![p.protocol.wire_byte()]);
            lemma_append_chunk(before, out@, cs, c);
            cs = cs.push(c);
        }
        let ghost before = out@;
        write_chunk_u32(out, StandardChunk::CaptureAgentId, self.capture_id);
        proof {
            let c = Chunk::standard(StandardChunk::CaptureAgentId, be32(p.capture_id));
            lemma_append_chunk(before, out@, cs, c);
            cs = cs.push(c);
        }
        assert(cs =~= envelope_chunks(p));
    }
}

/// A length as its two-byte field holds it.
fn clamped_len(len: usize) -> (field: u16)
    ensures
        field == clamp_len(len as nat),
{
    if len <= u16::MAX as usize {
        len as u16
    } else {
        u16::MAX
    }
}

/// Append the header of a standard chunk.
fn write_chunk_header(out: &mut Vec<u8>, kind: StandardChunk, payload_len: usize)
    ensures
        final(out)@ == old(out)@ + be16(VENDOR_GENERIC) + be16(kind.id()) + be16(
            clamp_len((CHUNK_HEADER_LEN + payload_len) as nat),
        ),
{
    put_be16(out, VENDOR_GENERIC);
    put_be16(out, kind.as_u16());
    let len: u16 = clamped_len(payload_len.saturating_add(CHUNK_HEADER_LEN));
    put_be16(out, len);
}

/// Append a standard chunk that holds one byte.
pub(crate) fn write_chunk_u8(out: &mut Vec<u8>, kind: StandardChunk, val: u8)
    ensures
        final(out)@ == old(out)@ + Chunk::standard(kind, seq![val]).wire_bytes(),
{
    write_chunk_header(out, kind, 1);
    out.push(val);
    assert(out@ =~= old(out)@ + Chunk::standard(kind, seq![val]).wire_bytes());
}

/// Append a standard chunk that holds a two-byte integer.
pub(crate) fn write_chunk_u16(out: &mut Vec<u8>, kind: StandardChunk, val: u16)
    ensures
        final(out)@ == old(out)@ + Chunk::standard(kind, be16(val)).wire_bytes(),
{
    write_chunk_header(out, kind, 2);
    put_be16(out, val);
    assert(out@ =~= old(out)@ + Chunk::standard(kind, be16(val)).wire_bytes());
}

/// Append a standard chunk that holds a four-byte integer.
pub(crate) fn write_chunk_u32(out: &mut Vec<u8>, kind: StandardChunk, val: u32)
    ensures
        final(out)@ == old(out)@ + Chunk::standard(kind, be32(val)).wire_bytes(),
{
    write_chunk_header(out, kind, 4);
    put_be32(out, val);
    assert(out@ =~= old(out)@ + Chunk::standard(kind, be32(val)).wire_bytes());
}

/// Append a standard chunk that holds the given bytes.
fn write_chunk_bytes(out: &mut Vec<u8>, kind: StandardChunk, val: &[u8])
    ensures
        final(out)@ == old(out)@ + Chunk::standard(kind, val@).wire_bytes(),
{
    write_chunk_header(out, kind, val.len());
    put_bytes(out, val);
    assert(out@ =~= old(out)@ + Chunk::standard(kind, val@).wire_bytes());
}

/// Append the chunk of the source or the destination address.
fn write_ip_chunk(out: &mut Vec<u8>, ip: IpAddr, is_src: bool)
    ensures
        final(out)@ == old(out)@ + ip_chunk(ip, is_src).wire_bytes(),
{
    match ip {
        IpAddr::V4(octets) => {
            let kind = if is_src {
                StandardChunk::Ipv4Src
            } else {
                StandardChunk::Ipv4Dst
            };
            write_chunk_bytes(out, kind, &octets);
        },
        IpAddr::V6(octets) => {
            let kind = if is_src {
                StandardChunk::Ipv6Src
            } else {
                StandardChunk::Ipv6Dst
            };
            write_chunk_bytes(out, kind, &octets);
        },
    }
}

/// Seconds and microseconds of a timestamp as they travel.
fn unix_split(t: Timestamp) -> (split: (u32, u32))
    ensures
        split == (wire_secs(t), wire_usecs(t)),
{
    if t.before_epoch {
        return (0, 0);
    }
    let secs: u32 = if t.secs <= u32::MAX as u64 {
        t.secs as u32
    } else {
        u32::MAX
    };
    (secs, t.nanos / NANOS_PER_MICRO)
}

} // verus!
