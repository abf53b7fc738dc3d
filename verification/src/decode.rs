//! From bytes to a packet.

use vstd::prelude::*;
use vstd::utf8::{
    decode_utf8, decode_utf8_encode_utf8, encode_utf8, encode_utf8_decode_utf8, valid_utf8,
};

use crate::addr::{IpAddr, SocketAddr};
use crate::bytes::{
    be16, be32, lemma_be16_of_u16, lemma_be32_of_u32, lemma_u16_of_be16, lemma_u32_of_be32, read_be16,
    read_be32, u16_of, u32_of,
};
use crate::chunk::{
    Chunk, StandardChunk, CHUNK_HEADER_LEN, FAMILY_IPV4, FAMILY_IPV6, HEADER_LEN, MAGIC,
    VENDOR_GENERIC,
};
use crate::encode::family_of;
use crate::packet::{HepPacket, HepProtocol, IpProto, PacketView};
use crate::time::{Timestamp, NANOS_PER_MICRO, NANOS_PER_SEC};

verus! {

/// All the ways [`HepPacket::decode`] can fail.
#[derive(Debug)]
pub enum DecodeError {
    /// Too few bytes to even hold a HEP3 header.
    Truncated(usize),
    /// First four bytes were not `HEP3`.
    BadMagic([u8; 4]),
    /// The total length in the header doesn't agree with the buffer size.
    LengthMismatch {
        /// Length the packet header claimed.
        claimed: usize,
        /// Buffer length there actually is.
        actual: usize,
    },
    /// A chunk ran past the packet boundary.
    TruncatedChunk {
        /// Byte offset where the bad chunk started.
        offset: usize,
    },
    /// A chunk's `length` field was smaller than its 6-byte header.
    UndersizedChunk(u16),
    /// Required chunk for a complete packet was missing.
    MissingChunk(StandardChunk),
    /// Chunk body size didn't match what its type requires.
    BadSize {
        /// Which chunk was malformed.
        kind: StandardChunk,
        /// Bytes received.
        got: usize,
        /// Bytes the type mandates.
        expected: usize,
    },
    /// IP family chunk wasn't 2 (v4) or 10 (v6).
    UnsupportedIpFamily(u8),
    /// IP protocol byte wasn't a known one.
    UnsupportedIpProtocol(u8),
    /// Protocol type chunk carried a value not in [`HepProtocol`].
    UnsupportedHepProtocol(u8),
    /// A string-typed chunk (correlation id, auth key) wasn't UTF-8.
    NotUtf8(StandardChunk),
}

/// What is wrong with the header of a packet, if anything.
pub open spec fn header_error(buf: Seq<u8>) -> Option<DecodeError> {
    if buf.len() < HEADER_LEN {
        Some(DecodeError::Truncated(buf.len() as usize))
    } else if buf.subrange(0, 4) != MAGIC@ {
        Some(DecodeError::BadMagic([buf[0], buf[1], buf[2], buf[3]]))
    } else if u16_of(buf.subrange(4, 6)) != buf.len() {
        Some(
            DecodeError::LengthMismatch {
                claimed: u16_of(buf.subrange(4, 6)) as usize,
                actual: buf.len() as usize,
            },
        )
    } else {
        None
    }
}

/// The size that the body of a standard chunk must have, if it is fixed.
pub open spec fn fixed_size(kind: StandardChunk) -> Option<usize> {
    match kind {
        StandardChunk::IpFamily => Some(1),
        StandardChunk::IpProtocolId => Some(1),
        StandardChunk::Ipv4Src => Some(4),
        StandardChunk::Ipv4Dst => Some(4),
        StandardChunk::Ipv6Src => Some(16),
        StandardChunk::Ipv6Dst => Some(16),
        StandardChunk::SrcPort => Some(2),
        StandardChunk::DstPort => Some(2),
        StandardChunk::TimestampSec => Some(4),
        StandardChunk::TimestampUsec => Some(4),
        StandardChunk::ProtocolType => Some(1),
        StandardChunk::CaptureAgentId => Some(4),
        StandardChunk::AuthKey => None,
        StandardChunk::Payload => None,
        StandardChunk::CorrelationId => None,
    }
}

/// Whether the body of a standard chunk is text.
pub open spec fn is_text(kind: StandardChunk) -> bool {
    kind == StandardChunk::AuthKey || kind == StandardChunk::CorrelationId
}

/// What is wrong with the body of a standard chunk, if anything.
pub open spec fn body_error(kind: StandardChunk, body: Seq<u8>) -> Option<DecodeError> {
    match fixed_size(kind) {
        Some(expected) if body.len() != expected => Some(
            DecodeError::BadSize { kind, got: body.len() as usize, expected },
        ),
        _ => if kind == StandardChunk::ProtocolType && HepProtocol::of_byte(body[0]) is None {
            Some(DecodeError::UnsupportedHepProtocol(body[0]))
        } else if is_text(kind) && !valid_utf8(body) {
            Some(DecodeError::NotUtf8(kind))
        } else {
            None
        },
    }
}

/// What is wrong with a chunk, if anything. A chunk of another vendor or of an
/// unknown type may hold anything.
pub open spec fn chunk_error(chunk: Chunk) -> Option<DecodeError> {
    match chunk.standard_type() {
        Some(kind) => body_error(kind, chunk.body),
        None => None,
    }
}

/// The chunk that starts at `at`, or what is wrong with it.
pub open spec fn chunk_at(buf: Seq<u8>, at: int) -> Result<Chunk, DecodeError> {
    let len = u16_of(buf.subrange(at + 4, at + 6));
    if at + CHUNK_HEADER_LEN > buf.len() {
        Err(DecodeError::TruncatedChunk { offset: at as usize })
    } else if len < CHUNK_HEADER_LEN {
        Err(DecodeError::UndersizedChunk(len))
    } else if at + len > buf.len() {
        Err(DecodeError::TruncatedChunk { offset: at as usize })
    } else {
        let chunk = Chunk {
            vendor: u16_of(buf.subrange(at, at + 2)),
            kind: u16_of(buf.subrange(at + 2, at + 4)),
            body: buf.subrange(at + CHUNK_HEADER_LEN, at + len),
        };
        match chunk_error(chunk) {
            Some(e) => Err(e),
            None => Ok(chunk),
        }
    }
}

/// The chunks from `at` to the end of a packet, or what is wrong with the first
/// of them that is not in order.
pub open spec fn chunks_from(buf: Seq<u8>, at: nat) -> Result<Seq<Chunk>, DecodeError>
    decreases buf.len() - at,
{
    if at >= buf.len() {
        Ok(seq![])
    } else {
        match chunk_at(buf, at as int) {
            Err(e) => Err(e),
            Ok(chunk) => match chunks_from(buf, at + chunk.wire_len()) {
                Err(e) => Err(e),
                Ok(rest) => Ok(seq![chunk] + rest),
            },
        }
    }
}

/// The bodies of the standard chunks among `chunks`. Of several chunks of one
/// type, the last one counts.
pub open spec fn bodies(chunks: Seq<Chunk>) -> Map<StandardChunk, Seq<u8>>
    decreases chunks.len(),
{
    if chunks.len() == 0 {
        Map::empty()
    } else {
        let earlier = bodies(chunks.drop_last());
        match chunks.last().standard_type() {
            Some(kind) => earlier.insert(kind, chunks.last().body),
            None => earlier,
        }
    }
}

/// What is wrong with a body that comes under the given type ID, if anything.
pub open spec fn absorb_error(id: u16, body: Seq<u8>) -> Option<DecodeError> {
    match StandardChunk::of_id(id) {
        Some(kind) => body_error(kind, body),
        None => None,
    }
}

/// The bodies after one more has come under the given type ID. Nothing changes if the
/// type is not known or the body is not in order.
pub open spec fn absorbed(
    m: Map<StandardChunk, Seq<u8>>,
    id: u16,
    body: Seq<u8>,
) -> Map<StandardChunk, Seq<u8>> {
    match StandardChunk::of_id(id) {
        Some(kind) if body_error(kind, body) is None => m.insert(kind, body),
        _ => m,
    }
}

/// The chunks that every packet must have, whatever its IP family.
pub open spec fn required_chunks() -> Seq<StandardChunk> {
    seq![
        StandardChunk::IpFamily,
        StandardChunk::IpProtocolId,
        StandardChunk::SrcPort,
        StandardChunk::DstPort,
        StandardChunk::TimestampSec,
        StandardChunk::TimestampUsec,
        StandardChunk::ProtocolType,
        StandardChunk::CaptureAgentId,
        StandardChunk::Payload,
    ]
}

/// The first of `kinds` that has no body in `m`.
pub open spec fn first_missing(
    m: Map<StandardChunk, Seq<u8>>,
    kinds: Seq<StandardChunk>,
) -> Option<StandardChunk>
    decreases kinds.len(),
{
    if kinds.len() == 0 {
        None
    } else if !m.contains_key(kinds[0]) {
        Some(kinds[0])
    } else {
        first_missing(m, kinds.drop_first())
    }
}

/// The chunks of the addresses of a packet of the given IP family.
pub open spec fn address_chunks(family: u8) -> Seq<StandardChunk> {
    if family == FAMILY_IPV4 {
        seq![StandardChunk::Ipv4Src, StandardChunk::Ipv4Dst]
    } else {
        seq![StandardChunk::Ipv6Src, StandardChunk::Ipv6Dst]
    }
}

/// The address with the given octets.
pub open spec fn address(family: u8, b: Seq<u8>) -> IpAddr {
    if family == FAMILY_IPV4 {
        IpAddr::V4([b[0], b[1], b[2], b[3]])
    } else {
        IpAddr::V6(
            [
                b[0],
                b[1],
                b[2],
                b[3],
                b[4],
                b[5],
                b[6],
                b[7],
                b[8],
                b[9],
                b[10],
                b[11],
                b[12],
                b[13],
                b[14],
                b[15],
            ],
        )
    }
}

/// The instant that the two timestamp chunks state. Microseconds beyond a second
/// carry into the seconds; those beyond what 32 bits of nanoseconds hold are
/// cut off.
pub open spec fn wire_time(sec: u32, usec: u32) -> Timestamp {
    let nanos = if usec * NANOS_PER_MICRO <= u32::MAX {
        usec * NANOS_PER_MICRO
    } else {
        u32::MAX as int
    };
    Timestamp {
        before_epoch: false,
        secs: (sec + nanos / NANOS_PER_SEC as int) as u64,
        nanos: (nanos % NANOS_PER_SEC as int) as u32,
    }
}

/// The text of a chunk that a packet may do without.
pub open spec fn text_of(m: Map<StandardChunk, Seq<u8>>, kind: StandardChunk) -> Option<Seq<char>> {
    if m.contains_key(kind) {
        Some(decode_utf8(m[kind]))
    } else {
        None
    }
}

/// The packet that the bodies of its chunks make up, or what is wrong with them.
pub open spec fn assembled(m: Map<StandardChunk, Seq<u8>>) -> Result<PacketView, DecodeError> {
    let family = m[StandardChunk::IpFamily][0];
    let proto_id = m[StandardChunk::IpProtocolId][0];
    let ends = address_chunks(family);
    if let Some(kind) = first_missing(m, required_chunks()) {
        Err(DecodeError::MissingChunk(kind))
    } else if IpProto::of_byte(proto_id) is None {
        Err(DecodeError::UnsupportedIpProtocol(proto_id))
    } else if family != FAMILY_IPV4 && family != FAMILY_IPV6 {
        Err(DecodeError::UnsupportedIpFamily(family))
    } else if let Some(kind) = first_missing(m, ends) {
        Err(DecodeError::MissingChunk(kind))
    } else {
        Ok(
            PacketView {
                capture_id: u32_of(m[StandardChunk::CaptureAgentId]),
                capture_password: text_of(m, StandardChunk::AuthKey),
                protocol: HepProtocol::of_byte(m[StandardChunk::ProtocolType][0])->0,
                transport: IpProto::of_byte(proto_id)->0,
                src: SocketAddr::new(
                    address(family, m[ends[0]]),
                    u16_of(m[StandardChunk::SrcPort]),
                ),
                dst: SocketAddr::new(
                    address(family, m[ends[1]]),
                    u16_of(m[StandardChunk::DstPort]),
                ),
                timestamp: wire_time(
                    u32_of(m[StandardChunk::TimestampSec]),
                    u32_of(m[StandardChunk::TimestampUsec]),
                ),
                correlation_id: text_of(m, StandardChunk::CorrelationId),
                payload: m[StandardChunk::Payload],
            },
        )
    }
}

/// The packet that a buffer holds, or what is wrong with the buffer.
pub open spec fn decoding(buf: Seq<u8>) -> Result<PacketView, DecodeError> {
    match header_error(buf) {
        Some(e) => Err(e),
        None => match chunks_from(buf, HEADER_LEN as nat) {
            Err(e) => Err(e),
            Ok(chunks) => assembled(bodies(chunks)),
        },
    }
}

/// `std::str::from_utf8`. A byte sequence that is UTF-8 gives the text that it
/// encodes, and any other byte sequence gives none.
#[verifier::external_body]
fn utf8_text(bytes: &[u8]) -> (text: Option<&str>)
    ensures
        text is Some <==> valid_utf8(bytes@),
        text matches Some(s) ==> s@ == decode_utf8(bytes@),
{
    std::str::from_utf8(bytes).ok()
}

impl HepPacket {
    /// Decode a single HEP3 packet from `buf`. Returns the parsed packet, or
    /// [`DecodeError`] describing what was wrong with the wire bytes.
    pub fn decode(buf: &[u8]) -> (r: Result<HepPacket, DecodeError>)
        ensures
            match r {
                Ok(p) => decoding(buf@) == Ok::<PacketView, DecodeError>(p@),
                Err(e) => decoding(buf@) == Err::<PacketView, DecodeError>(e),
            },
    {
        if buf.len() < HEADER_LEN {
            return Err(DecodeError::Truncated(buf.len()));
        }
        let magic: [u8; 4] = [buf[0], buf[1], buf[2], buf[3]];
        if magic[0] != MAGIC[0] || magic[1] != MAGIC[1] || magic[2] != MAGIC[2] || magic[3]
            != MAGIC[3] {
            assert(buf@.subrange(0, 4)[0] == buf@[0]);
            assert(buf@.subrange(0, 4)[1] == buf@[1]);
            assert(buf@.subrange(0, 4)[2] == buf@[2]);
            assert(buf@.subrange(0, 4)[3] == buf@[3]);
            return Err(DecodeError::BadMagic(magic));
        }
        assert(buf@.subrange(0, 4) =~= MAGIC@);
        let total: usize = read_be16(buf, 4) as usize;
        if total != buf.len() {
            return Err(DecodeError::LengthMismatch { claimed: total, actual: buf.len() });
        }
        let mut parts = PartialPacket::new();
        let mut cursor: usize = HEADER_LEN;
        let ghost mut done: Seq<Chunk> = seq![];
        while cursor < total
            invariant
                HEADER_LEN <= cursor <= total,
                total == buf@.len(),
                total <= u16::MAX,
                header_error(buf@) is None,
                parts@ == bodies(done),
                chunks_from(buf@, HEADER_LEN as nat) == (match chunks_from(buf@, cursor as nat) {
                    Err(e) => Err::<Seq<Chunk>, DecodeError>(e),
                    Ok(rest) => Ok(done + rest),
                }),
            decreases total - cursor,
        {
            if cursor + CHUNK_HEADER_LEN > total {
                return Err(DecodeError::TruncatedChunk { offset: cursor });
            }
            let vendor: u16 = read_be16(buf, cursor);
            let kind: u16 = read_be16(buf, cursor + 2);
            let chunk_len: u16 = read_be16(buf, cursor + 4);
            if (chunk_len as usize) < CHUNK_HEADER_LEN {
                return Err(DecodeError::UndersizedChunk(chunk_len));
            }
            if cursor + chunk_len as usize > total {
                return Err(DecodeError::TruncatedChunk { offset: cursor });
            }
            let payload = vstd::slice::slice_subrange(
                buf,
                cursor + CHUNK_HEADER_LEN,
                cursor + chunk_len as usize,
            );
            let ghost chunk = Chunk { vendor, kind, body: payload@ };

            // Vendor-specific chunks are not invalid, just unknown: one of them
            // must not keep the rest of the packet from being decoded.
            if vendor == VENDOR_GENERIC {
                match parts.absorb(kind, payload) {
                    Err(e) => return Err(e),
                    Ok(()) => {},
                }
            }
            proof {
                assert(done.push(chunk).drop_last() =~= done);
                match chunks_from(buf@, cursor as nat + chunk.wire_len()) {
                    Err(e) => {},
                    Ok(rest) => {
                        assert(done + (seq![chunk] + rest) =~= done.push(chunk) + rest);
                    },
                }
                done = done.push(chunk);
            }
            cursor += chunk_len as usize;
        }
        assert(done + seq![] =~= done);
        parts.finish()
    }
}

/// What a packet under decoding has brought so far, chunk by chunk. Addresses
/// and ports are kept apart until both halves of a v4 or v6 pair are known.
pub(crate) struct PartialPacket {
    ip_family: Option<u8>,
    ip_proto: Option<u8>,
    ipv4_src: Option<[u8; 4]>,
    ipv4_dst: Option<[u8; 4]>,
    ipv6_src: Option<[u8; 16]>,
    ipv6_dst: Option<[u8; 16]>,
    src_port: Option<u16>,
    dst_port: Option<u16>,
    ts_sec: Option<u32>,
    ts_usec: Option<u32>,
    protocol: Option<HepProtocol>,
    capture_id: Option<u32>,
    capture_password: Option<String>,
    correlation_id: Option<String>,
    payload: Option<Vec<u8>>,
}

/// The body of a one-byte chunk.
spec fn u8_body(v: Option<u8>) -> Option<Seq<u8>> {
    match v {
        Some(b) => Some(seq![b]),
        None => None,
    }
}

/// The body of a chunk that holds a two-byte integer.
spec fn u16_body(v: Option<u16>) -> Option<Seq<u8>> {
    match v {
        Some(n) => Some(be16(n)),
        None => None,
    }
}

/// The body of a chunk that holds a four-byte integer.
spec fn u32_body(v: Option<u32>) -> Option<Seq<u8>> {
    match v {
        Some(n) => Some(be32(n)),
        None => None,
    }
}

/// The body of an address chunk.
spec fn array_body<const N: usize>(v: Option<[u8; N]>) -> Option<Seq<u8>> {
    match v {
        Some(a) => Some(a@),
        None => None,
    }
}

/// The body of a protocol type chunk.
spec fn protocol_body(v: Option<HepProtocol>) -> Option<Seq<u8>> {
    match v {
        Some(p) => Some(seq![p.wire_byte()]),
        None => None,
    }
}

/// The body of a text chunk.
spec fn text_body(v: Option<String>) -> Option<Seq<u8>> {
    match v {
        Some(s) => Some(encode_utf8(s@)),
        None => None,
    }
}

/// The body of a payload chunk.
spec fn payload_body(v: Option<Vec<u8>>) -> Option<Seq<u8>> {
    match v {
        Some(b) => Some(b@),
        None => None,
    }
}

impl PartialPacket {
    /// The body of the chunk of the given type, if it has come.
    spec fn body(self, kind: StandardChunk) -> Option<Seq<u8>> {
        match kind {
            StandardChunk::IpFamily => u8_body(self.ip_family),
            StandardChunk::IpProtocolId => u8_body(self.ip_proto),
            StandardChunk::Ipv4Src => array_body(self.ipv4_src),
            StandardChunk::Ipv4Dst => array_body(self.ipv4_dst),
            StandardChunk::Ipv6Src => array_body(self.ipv6_src),
            StandardChunk::Ipv6Dst => array_body(self.ipv6_dst),
            StandardChunk::SrcPort => u16_body(self.src_port),
            StandardChunk::DstPort => u16_body(self.dst_port),
            StandardChunk::TimestampSec => u32_body(self.ts_sec),
            StandardChunk::TimestampUsec => u32_body(self.ts_usec),
            StandardChunk::ProtocolType => protocol_body(self.protocol),
            StandardChunk::CaptureAgentId => u32_body(self.capture_id),
            StandardChunk::AuthKey => text_body(self.capture_password),
            StandardChunk::Payload => payload_body(self.payload),
            StandardChunk::CorrelationId => text_body(self.correlation_id),
        }
    }

    /// Nothing has come yet.
    pub(crate) fn new() -> (parts: PartialPacket)
        ensures
            parts@ == Map::<StandardChunk, Seq<u8>>::empty(),
    {
        let parts = PartialPacket {
            ip_family: None,
            ip_proto: None,
            ipv4_src: None,
            ipv4_dst: None,
            ipv6_src: None,
            ipv6_dst: None,
            src_port: None,
            dst_port: None,
            ts_sec: None,
            ts_usec: None,
            protocol: None,
            capture_id: None,
            capture_password: None,
            correlation_id: None,
            payload: None,
        };
        assert(parts@ =~= Map::<StandardChunk, Seq<u8>>::empty());
        parts
    }

    /// Take in the body of a standard chunk. A type that is not known is ignored:
    /// new chunk types should not poison decoding.
    pub(crate) fn absorb(&mut self, kind: u16, payload: &[u8]) -> (r: Result<(), DecodeError>)
        ensures
            r == (match absorb_error(kind, payload@) {
                Some(e) => Err::<(), DecodeError>(e),
                None => Ok(()),
            }),
            final(self)@ == absorbed(old(self)@, kind, payload@),
    {
        match kind {
            0x0001 => {
                self.ip_family = Some(read_u8(StandardChunk::IpFamily, payload)?);
            },
            0x0002 => {
                self.ip_proto = Some(read_u8(StandardChunk::IpProtocolId, payload)?);
            },
            0x0003 => {
                self.ipv4_src = Some(read_array::<4>(StandardChunk::Ipv4Src, payload)?);
            },
            0x0004 => {
                self.ipv4_dst = Some(read_array::<4>(StandardChunk::Ipv4Dst, payload)?);
            },
            0x0005 => {
                self.ipv6_src = Some(read_array::<16>(StandardChunk::Ipv6Src, payload)?);
            },
            0x0006 => {
                self.ipv6_dst = Some(read_array::<16>(StandardChunk::Ipv6Dst, payload)?);
            },
            0x0007 => {
                self.src_port = Some(read_u16(StandardChunk::SrcPort, payload)?);
            },
            0x0008 => {
                self.dst_port = Some(read_u16(StandardChunk::DstPort, payload)?);
            },
            0x0009 => {
                self.ts_sec = Some(read_u32(StandardChunk::TimestampSec, payload)?);
            },
            0x000A => {
                self.ts_usec = Some(read_u32(StandardChunk::TimestampUsec, payload)?);
            },
            0x000B => {
                let byte: u8 = read_u8(StandardChunk::ProtocolType, payload)?;
                match HepProtocol::from_u8(byte) {
                    Some(protocol) => {
                        self.protocol = Some(protocol);
                    },
                    None => return Err(DecodeError::UnsupportedHepProtocol(byte)),
                }
            },
            0x000C => {
                self.capture_id = Some(read_u32(StandardChunk::CaptureAgentId, payload)?);
            },
            0x000E => {
                self.capture_password = Some(read_text(StandardChunk::AuthKey, payload)?);
            },
            0x000F => {
                self.payload = Some(vstd::slice::slice_to_vec(payload));
            },
            0x0011 => {
                self.correlation_id = Some(read_text(StandardChunk::CorrelationId, payload)?);
            },
            _ => {},
        }
        proof {
            match StandardChunk::of_id(kind) {
                Some(k) => {
                    assert(self@ =~= old(self)@.insert(k, payload@));
                },
                None => {},
            }
        }
        Ok(())
    }

    /// Put the packet together once all its chunks have come.
    pub(crate) fn finish(self) -> (r: Result<HepPacket, DecodeError>)
        ensures
            match r {
                Ok(p) => assembled(self@) == Ok::<PacketView, DecodeError>(p@),
                Err(e) => assembled(self@) == Err::<PacketView, DecodeError>(e),
            },
    {
        let ghost m = self@;
        proof {
            self.lemma_bodies();
            lemma_first_missing_required(m);
            lemma_first_missing_addresses(m, FAMILY_IPV4);
            lemma_first_missing_addresses(m, FAMILY_IPV6);
        }
        let family: u8 = self.ip_family.ok_or(DecodeError::MissingChunk(StandardChunk::IpFamily))?;
        let proto_id: u8 = self.ip_proto.ok_or(
            DecodeError::MissingChunk(StandardChunk::IpProtocolId),
        )?;
        let src_port: u16 = self.src_port.ok_or(DecodeError::MissingChunk(StandardChunk::SrcPort))?;
        let dst_port: u16 = self.dst_port.ok_or(DecodeError::MissingChunk(StandardChunk::DstPort))?;
        let ts_sec: u32 = self.ts_sec.ok_or(
            DecodeError::MissingChunk(StandardChunk::TimestampSec),
        )?;
        let ts_usec: u32 = self.ts_usec.ok_or(
            DecodeError::MissingChunk(StandardChunk::TimestampUsec),
        )?;
        let protocol = self.protocol.ok_or(DecodeError::MissingChunk(StandardChunk::ProtocolType))?;
        let capture_id: u32 = self.capture_id.ok_or(
            DecodeError::MissingChunk(StandardChunk::CaptureAgentId),
        )?;
        let payload = self.payload.ok_or(DecodeError::MissingChunk(StandardChunk::Payload))?;

        let transport = IpProto::from_u8(proto_id).ok_or(
            DecodeError::UnsupportedIpProtocol(proto_id),
        )?;

        let (src_ip, dst_ip) = if family == FAMILY_IPV4 {
            let s = self.ipv4_src.ok_or(DecodeError::MissingChunk(StandardChunk::Ipv4Src))?;
            let d = self.ipv4_dst.ok_or(DecodeError::MissingChunk(StandardChunk::Ipv4Dst))?;
            (IpAddr::V4(s), IpAddr::V4(d))
        } else if family == FAMILY_IPV6 {
            let s = self.ipv6_src.ok_or(DecodeError::MissingChunk(StandardChunk::Ipv6Src))?;
            let d = self.ipv6_dst.ok_or(DecodeError::MissingChunk(StandardChunk::Ipv6Dst))?;
            (IpAddr::V6(s), IpAddr::V6(d))
        } else {
            return Err(DecodeError::UnsupportedIpFamily(family));
        };

        let timestamp = unix_join(ts_sec, ts_usec);
        let packet = HepPacket {
            capture_id,
            capture_password: self.capture_password,
            protocol,
            transport,
            src: SocketAddr::new(src_ip, src_port),
            dst: SocketAddr::new(dst_ip, dst_port),
            timestamp,
            correlation_id: self.correlation_id,
            payload,
        };
        proof {
            let ends = address_chunks(family);
            lemma_u16_of_be16(src_port);
            lemma_u16_of_be16(dst_port);
            lemma_u32_of_be32(ts_sec);
            lemma_u32_of_be32(ts_usec);
            lemma_u32_of_be32(capture_id);
            lemma_address_of_octets(src_ip);
            lemma_address_of_octets(dst_ip);
            assert(text_of(m, StandardChunk::AuthKey) == packet@.capture_password) by {
                if let Some(s) = packet.capture_password {
                    encode_utf8_decode_utf8(s@);
                }
            }
            assert(text_of(m, StandardChunk::CorrelationId) == packet@.correlation_id) by {
                if let Some(s) = packet.correlation_id {
                    encode_utf8_decode_utf8(s@);
                }
            }
            assert(m[ends[0]] == src_ip.octets());
            assert(m[ends[1]] == dst_ip.octets());
        }
        Ok(packet)
    }

    /// The view, chunk type by chunk type.
    proof fn lemma_bodies(self)
        ensures
            forall|kind: StandardChunk| #[trigger]
                self@.contains_key(kind) <==> self.body(kind) is Some,
            forall|kind: StandardChunk| #[trigger]
                self@.contains_key(kind) ==> self@[kind] == self.body(kind)->0,
    {
    }
}

/// An address is the one with its octets.
pub proof fn lemma_address_of_octets(ip: IpAddr)
    ensures
        address(family_of(ip), ip.octets()) == ip,
{
    match ip {
        IpAddr::V4(octets) => {
            assert(address(FAMILY_IPV4, octets@)->V4_0 =~= octets);
        },
        IpAddr::V6(octets) => {
            assert(address(FAMILY_IPV6, octets@)->V6_0 =~= octets);
        },
    }
}

/// The instant that seconds and microseconds from the wire state.
fn unix_join(sec: u32, usec: u32) -> (t: Timestamp)
    ensures
        t == wire_time(sec, usec),
        t.valid(),
{
    let nanos: u32 = if usec <= u32::MAX / NANOS_PER_MICRO {
        usec * NANOS_PER_MICRO
    } else {
        u32::MAX
    };
    Timestamp::after_epoch(sec as u64, nanos)
}

/// Of the kinds that have no body, [`first_missing`] gives the first.
proof fn lemma_first_missing(m: Map<StandardChunk, Seq<u8>>, kinds: Seq<StandardChunk>)
    ensures
        match first_missing(m, kinds) {
            None => forall|i: int| 0 <= i < kinds.len() ==> m.contains_key(#[trigger] kinds[i]),
            Some(kind) => exists|i: int|
                {
                    &&& 0 <= i < kinds.len()
                    &&& #[trigger] kinds[i] == kind
                    &&& !m.contains_key(kind)
                    &&& forall|j: int| 0 <= j < i ==> m.contains_key(#[trigger] kinds[j])
                },
        },
    decreases kinds.len(),
{
    if kinds.len() > 0 && m.contains_key(kinds[0]) {
        let rest = kinds.drop_first();
        lemma_first_missing(m, rest);
        match first_missing(m, rest) {
            None => {
                assert forall|i: int| 0 <= i < kinds.len() implies m.contains_key(
                    #[trigger] kinds[i],
                ) by {
                    if i > 0 {
                        assert(rest[i - 1] == kinds[i]);
                    }
                }
            },
            Some(kind) => {
                let i = choose|i: int|
                    {
                        &&& 0 <= i < rest.len()
                        &&& #[trigger] rest[i] == kind
                        &&& !m.contains_key(kind)
                        &&& forall|j: int| 0 <= j < i ==> m.contains_key(#[trigger] rest[j])
                    };
                assert(kinds[i + 1] == kind);
                assert forall|j: int| 0 <= j < i + 1 implies m.contains_key(
                    #[trigger] kinds[j],
                ) by {
                    if j > 0 {
                        assert(rest[j - 1] == kinds[j]);
                    }
                }
            },
        }
    }
}

/// Which of the required chunks is the first that is missing.
pub proof fn lemma_first_missing_required(m: Map<StandardChunk, Seq<u8>>)
    ensures
        first_missing(m, required_chunks()) == (if !m.contains_key(StandardChunk::IpFamily) {
            Some(StandardChunk::IpFamily)
        } else if !m.contains_key(StandardChunk::IpProtocolId) {
            Some(StandardChunk::IpProtocolId)
        } else if !m.contains_key(StandardChunk::SrcPort) {
            Some(StandardChunk::SrcPort)
        } else if !m.contains_key(StandardChunk::DstPort) {
            Some(StandardChunk::DstPort)
        } else if !m.contains_key(StandardChunk::TimestampSec) {
            Some(StandardChunk::TimestampSec)
        } else if !m.contains_key(StandardChunk::TimestampUsec) {
            Some(StandardChunk::TimestampUsec)
        } else if !m.contains_key(StandardChunk::ProtocolType) {
            Some(StandardChunk::ProtocolType)
        } else if !m.contains_key(StandardChunk::CaptureAgentId) {
            Some(StandardChunk::CaptureAgentId)
        } else if !m.contains_key(StandardChunk::Payload) {
            Some(StandardChunk::Payload)
        } else {
            None
        }),
{
    let kinds = required_chunks();
    lemma_first_missing(m, kinds);
    assert(kinds[0] == StandardChunk::IpFamily);
    assert(kinds[1] == StandardChunk::IpProtocolId);
    assert(kinds[2] == StandardChunk::SrcPort);
    assert(kinds[3] == StandardChunk::DstPort);
    assert(kinds[4] == StandardChunk::TimestampSec);
    assert(kinds[5] == StandardChunk::TimestampUsec);
    assert(kinds[6] == StandardChunk::ProtocolType);
    assert(kinds[7] == StandardChunk::CaptureAgentId);
    assert(kinds[8] == StandardChunk::Payload);
}

/// Which of the address chunks is the first that is missing.
pub proof fn lemma_first_missing_addresses(m: Map<StandardChunk, Seq<u8>>, family: u8)
    ensures
        ({
            let kinds = address_chunks(family);
            first_missing(m, kinds) == (if !m.contains_key(kinds[0]) {
                Some(kinds[0])
            } else if !m.contains_key(kinds[1]) {
                Some(kinds[1])
            } else {
                None
            })
        }),
{
    lemma_first_missing(m, address_chunks(family));
}

impl View for PartialPacket {
    type V = Map<StandardChunk, Seq<u8>>;

    closed spec fn view(&self) -> Map<StandardChunk, Seq<u8>> {
        Map::new(|kind: StandardChunk| self.body(kind) is Some, |kind: StandardChunk|
            self.body(kind)->0)
    }
}

/// The error for a body of the wrong size.
pub open spec fn bad_size(kind: StandardChunk, body: Seq<u8>, expected: usize) -> DecodeError {
    DecodeError::BadSize { kind, got: body.len() as usize, expected }
}

/// What a body of one byte holds.
pub open spec fn u8_in(kind: StandardChunk, body: Seq<u8>) -> Result<u8, DecodeError> {
    if body.len() == 1 {
        Ok(body[0])
    } else {
        Err(bad_size(kind, body, 1))
    }
}

/// What a body that is a two-byte integer holds.
pub open spec fn u16_in(kind: StandardChunk, body: Seq<u8>) -> Result<u16, DecodeError> {
    if body.len() == 2 {
        Ok(u16_of(body))
    } else {
        Err(bad_size(kind, body, 2))
    }
}

/// What a body that is a four-byte integer holds.
pub open spec fn u32_in(kind: StandardChunk, body: Seq<u8>) -> Result<u32, DecodeError> {
    if body.len() == 4 {
        Ok(u32_of(body))
    } else {
        Err(bad_size(kind, body, 4))
    }
}

/// Read a body of one byte.
pub(crate) fn read_u8(kind: StandardChunk, p: &[u8]) -> (r: Result<u8, DecodeError>)
    ensures
        r == u8_in(kind, p@),
        r matches Ok(v) ==> p@ == seq![v],
{
    if p.len() != 1 {
        return Err(DecodeError::BadSize { kind, got: p.len(), expected: 1 });
    }
    assert(p@ =~= seq![p@[0]]);
    Ok(p[0])
}

/// Read a body that is a two-byte integer.
pub(crate) fn read_u16(kind: StandardChunk, p: &[u8]) -> (r: Result<u16, DecodeError>)
    ensures
        r == u16_in(kind, p@),
        r matches Ok(v) ==> p@ == be16(v),
{
    if p.len() != 2 {
        return Err(DecodeError::BadSize { kind, got: p.len(), expected: 2 });
    }
    proof {
        assert(p@.subrange(0, 2) =~= p@);
        lemma_be16_of_u16(p@);
    }
    Ok(read_be16(p, 0))
}

/// Read a body that is a four-byte integer.
pub(crate) fn read_u32(kind: StandardChunk, p: &[u8]) -> (r: Result<u32, DecodeError>)
    ensures
        r == u32_in(kind, p@),
        r matches Ok(v) ==> p@ == be32(v),
{
    if p.len() != 4 {
        return Err(DecodeError::BadSize { kind, got: p.len(), expected: 4 });
    }
    proof {
        assert(p@.subrange(0, 4) =~= p@);
        lemma_be32_of_u32(p@);
    }
    Ok(read_be32(p, 0))
}

/// Read a body of `N` bytes.
pub(crate) fn read_array<const N: usize>(kind: StandardChunk, p: &[u8]) -> (r: Result<
    [u8; N],
    DecodeError,
>)
    ensures
        match r {
            Ok(a) => p@ == a@,
            Err(e) => p@.len() != N && e == bad_size(kind, p@, N),
        },
{
    if p.len() != N {
        return Err(DecodeError::BadSize { kind, got: p.len(), expected: N });
    }
    let mut a: [u8; N] = [0u8; N];
    let mut i: usize = 0;
    while i < N
        invariant
            i <= N,
            p@.len() == N,
            a@.len() == N,
            a@.subrange(0, i as int) == p@.subrange(0, i as int),
        decreases N - i,
    {
        a[i] = p[i];
        i += 1;
        assert(a@.subrange(0, i as int) =~= p@.subrange(0, i as int));
    }
    assert(a@.subrange(0, N as int) =~= a@);
    assert(p@.subrange(0, N as int) =~= p@);
    Ok(a)
}

/// Read a body that is text.
fn read_text(kind: StandardChunk, p: &[u8]) -> (r: Result<String, DecodeError>)
    ensures
        match r {
            Ok(s) => p@ == encode_utf8(s@) && valid_utf8(p@),
            Err(e) => !valid_utf8(p@) && e == DecodeError::NotUtf8(kind),
        },
{
    match utf8_text(p) {
        Some(s) => {
            proof {
                decode_utf8_encode_utf8(p@);
            }
            Ok(s.to_owned())
        },
        None => Err(DecodeError::NotUtf8(kind)),
    }
}

} // verus!
