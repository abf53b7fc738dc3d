//! The wire format in plain numbers.
//!
//! The statements of this module name bytes, chunk types and sizes by their values, and
//! say of [`encoding`] and [`decoding`] what a peer that knows nothing of this library
//! relies on.

use vstd::prelude::*;
use vstd::utf8::{decode_utf8_encode_utf8, encode_utf8, encode_utf8_decode_utf8, valid_utf8};

use crate::addr::{IpAddr, SocketAddr};
use crate::bytes::{
    be16, be32, lemma_be16_of_u16, lemma_be32_of_u32, lemma_u16_of_be16, lemma_u32_of_be32, u16_of,
    u32_of,
};
use crate::chunk::{chunks_bytes, frame, frame_len, Chunk, StandardChunk, MAGIC};
use crate::decode::{
    assembled, bodies, chunk_at, chunk_error, chunks_from, decoding, header_error,
    lemma_address_of_octets, lemma_first_missing_addresses, lemma_first_missing_required,
    DecodeError,
};
use crate::encode::{
    encoding, envelope_chunks, family_of, ip_chunk, packet_chunks, text_chunk, wire_secs, wire_usecs,
};
use crate::laws::{
    law_chunk_ids, law_decodable_buffer_is_a_frame, law_protocol_bytes, law_transport_bytes,
    lemma_bodies_in_order, lemma_body_absent, lemma_body_of, lemma_chunks_bytes_concat,
    lemma_chunks_bytes_len, lemma_chunks_bytes_one, lemma_chunks_read, lemma_total_len_cons,
    total_len,
};
use crate::packet::{HepProtocol, IpProto, PacketView};

verus! {

/// A number as two bytes, most significant first.
pub open spec fn two(n: int) -> Seq<u8> {
    seq![(n / 256) as u8, (n % 256) as u8]
}

/// A number as four bytes, most significant first.
pub open spec fn four(n: int) -> Seq<u8> {
    seq![
        (n / 16_777_216) as u8,
        (n / 65_536 % 256) as u8,
        (n / 256 % 256) as u8,
        (n % 256) as u8,
    ]
}

/// A number, or `max` if it is larger.
pub open spec fn at_most(n: int, max: int) -> int {
    if n <= max {
        n
    } else {
        max
    }
}

/// The bytes of a chunk of vendor zero.
pub open spec fn tlv(kind: u8, body: Seq<u8>) -> Seq<u8> {
    seq![0u8, 0, 0, kind] + two(at_most(6int + body.len(), 65_535)) + body
}

/// The number of a protocol.
pub open spec fn protocol_number(protocol: HepProtocol) -> u8 {
    match protocol {
        HepProtocol::Sip => 1,
        HepProtocol::Xmpp => 2,
        HepProtocol::Sdp => 3,
        HepProtocol::Rtp => 4,
        HepProtocol::Rtcp => 5,
        HepProtocol::Mgcp => 6,
        HepProtocol::Megaco => 7,
        HepProtocol::M2ua => 8,
        HepProtocol::M3ua => 9,
        HepProtocol::Iax => 10,
        HepProtocol::H323 => 11,
        HepProtocol::H321 => 12,
        HepProtocol::M2pa => 13,
        HepProtocol::RtpQos => 32,
        HepProtocol::Mos => 34,
        HepProtocol::Log => 100,
        HepProtocol::Cdr => 101,
        HepProtocol::Verstat => 102,
    }
}

/// Whether a number is that of a protocol.
pub open spec fn is_protocol_number(n: u8) -> bool {
    1 <= n <= 13 || n == 32 || n == 34 || 100 <= n <= 102
}

/// The number of a transport.
pub open spec fn transport_number(transport: IpProto) -> u8 {
    match transport {
        IpProto::Tcp => 6,
        IpProto::Udp => 17,
        IpProto::Sctp => 132,
    }
}

/// The chunks of a text that may be absent.
pub open spec fn text_tlv(kind: u8, text: Option<Seq<char>>) -> Seq<u8> {
    match text {
        Some(chars) => tlv(kind, encode_utf8(chars)),
        None => seq![],
    }
}

/// The wire bytes of protocols and transports are their numbers, and no other byte stands
/// for a protocol or a transport.
pub proof fn law_protocol_and_transport_numbers(
    protocol: HepProtocol,
    transport: IpProto,
    byte: u8,
)
    ensures
        protocol.wire_byte() == protocol_number(protocol),
        transport.wire_byte() == transport_number(transport),
        HepProtocol::of_byte(byte) == Some(protocol) <==> byte == protocol_number(protocol),
        HepProtocol::of_byte(byte) is Some <==> is_protocol_number(byte),
        IpProto::of_byte(byte) == Some(transport) <==> byte == transport_number(transport),
        IpProto::of_byte(byte) is Some <==> byte == 6 || byte == 17 || byte == 132,
{
}

/// The bytes of a standard chunk.
proof fn lemma_tlv(kind: StandardChunk, body: Seq<u8>)
    ensures
        Chunk::standard(kind, body).wire_bytes() == tlv(kind.id() as u8, body),
{
    assert(Chunk::standard(kind, body).wire_bytes() =~= tlv(kind.id() as u8, body));
}

/// The bytes of a row of chunks with one more at the end.
proof fn lemma_push(cs: Seq<Chunk>, kind: StandardChunk, body: Seq<u8>)
    ensures
        chunks_bytes(cs.push(Chunk::standard(kind, body))) == chunks_bytes(cs) + tlv(
            kind.id() as u8,
            body,
        ),
{
    lemma_tlv(kind, body);
    assert(cs.push(Chunk::standard(kind, body)).drop_last() =~= cs);
}

/// The bytes of a text that may be absent.
proof fn lemma_text_tlv(kind: StandardChunk, text: Option<Seq<char>>)
    ensures
        chunks_bytes(text_chunk(kind, text)) == text_tlv(kind.id() as u8, text),
{
    match text {
        Some(chars) => {
            lemma_push(seq![], kind, encode_utf8(chars));
            assert(seq![].push(Chunk::standard(kind, encode_utf8(chars))) =~= text_chunk(
                kind,
                text,
            ));
            assert(chunks_bytes(text_chunk(kind, text)) =~= text_tlv(kind.id() as u8, text));
        },
        None => {
            assert(chunks_bytes(text_chunk(kind, text)) =~= text_tlv(kind.id() as u8, text));
        },
    }
}

/// The bytes of the chunks that come first in every packet.
pub open spec fn envelope_bytes(p: PacketView) -> Seq<u8> {
    let family = if p.src is V4 {
        2u8
    } else {
        10u8
    };
    let secs = if p.timestamp.before_epoch {
        0
    } else {
        at_most(p.timestamp.secs as int, 0xFFFF_FFFF)
    };
    let micros = if p.timestamp.before_epoch {
        0
    } else {
        p.timestamp.nanos as int / 1_000
    };
    tlv(1, seq![family]) + tlv(2, seq![transport_number(p.transport)]) + (match p.src {
        SocketAddr::V4 { octets, .. } => tlv(3, octets@),
        SocketAddr::V6 { octets, .. } => tlv(5, octets@),
    }) + (match p.dst {
        SocketAddr::V4 { octets, .. } => tlv(4, octets@),
        SocketAddr::V6 { octets, .. } => tlv(6, octets@),
    }) + (match p.src {
        SocketAddr::V4 { port, .. } => tlv(7, two(port as int)),
        SocketAddr::V6 { port, .. } => tlv(7, two(port as int)),
    }) + (match p.dst {
        SocketAddr::V4 { port, .. } => tlv(8, two(port as int)),
        SocketAddr::V6 { port, .. } => tlv(8, two(port as int)),
    }) + tlv(9, four(secs)) + tlv(10, four(micros)) + tlv(
        11,
        seq![protocol_number(p.protocol)],
    ) + tlv(12, four(p.capture_id as int))
}

/// A number as two bytes is the two bytes of the integer.
proof fn lemma_two(n: u16)
    ensures
        be16(n) == two(n as int),
{
    assert(be16(n) =~= two(n as int));
}

/// A number as four bytes is the four bytes of the integer.
proof fn lemma_four(n: u32)
    ensures
        be32(n) == four(n as int),
{
    assert(be32(n) =~= four(n as int));
}

/// The bytes of the chunks that come first in every packet.
proof fn lemma_envelope_bytes(p: PacketView)
    ensures
        chunks_bytes(envelope_chunks(p)) == envelope_bytes(p),
{
    let cs = envelope_chunks(p);
    let c0 = Seq::<Chunk>::empty();
    let c1 = c0.push(cs[0]);
    let c2 = c1.push(cs[1]);
    let c3 = c2.push(cs[2]);
    let c4 = c3.push(cs[3]);
    let c5 = c4.push(cs[4]);
    let c6 = c5.push(cs[5]);
    let c7 = c6.push(cs[6]);
    let c8 = c7.push(cs[7]);
    let c9 = c8.push(cs[8]);
    assert(c9.push(cs[9]) =~= cs);
    lemma_two(p.src.port());
    lemma_two(p.dst.port());
    lemma_four(wire_secs(p.timestamp));
    lemma_four(wire_usecs(p.timestamp));
    lemma_four(p.capture_id);
    let family = family_of(p.src.ip());
    lemma_push(c0, StandardChunk::IpFamily, seq![family]);
    assert(chunks_bytes(c1) =~= tlv(1, seq![family]));
    lemma_push(c1, StandardChunk::IpProtocolId, seq![p.transport.wire_byte()]);
    match p.src.ip() {
        IpAddr::V4(octets) => lemma_push(c2, StandardChunk::Ipv4Src, octets@),
        IpAddr::V6(octets) => lemma_push(c2, StandardChunk::Ipv6Src, octets@),
    }
    match p.dst.ip() {
        IpAddr::V4(octets) => lemma_push(c3, StandardChunk::Ipv4Dst, octets@),
        IpAddr::V6(octets) => lemma_push(c3, StandardChunk::Ipv6Dst, octets@),
    }
    assert(cs[2] == ip_chunk(p.src.ip(), true));
    assert(cs[3] == ip_chunk(p.dst.ip(), false));
    lemma_push(c4, StandardChunk::SrcPort, be16(p.src.port()));
    lemma_push(c5, StandardChunk::DstPort, be16(p.dst.port()));
    lemma_push(
        c6,
        StandardChunk::TimestampSec,
        be32(wire_secs(p.timestamp)),
    );
    lemma_push(
        c7,
        StandardChunk::TimestampUsec,
        be32(wire_usecs(p.timestamp)),
    );
    lemma_push(c8, StandardChunk::ProtocolType, seq![p.protocol.wire_byte()]);
    lemma_push(c9, StandardChunk::CaptureAgentId, be32(p.capture_id));
}

/// A packet is encoded to these bytes and no others: `HEP3`, the total length, and then one
/// chunk for each field, the type of which is given by its number. The IP family is 2 for
/// an IPv4 source and 10 for an IPv6 source. The password travels in a chunk of type 14,
/// the correlation ID in one of type 17, and each of them whether or not the other is there.
pub proof fn law_packet_in_bytes(p: PacketView)
    ensures
        ({
            let rest = envelope_bytes(p) + text_tlv(14, p.capture_password) + text_tlv(
                17,
                p.correlation_id,
            ) + tlv(15, p.payload);
            encoding(p) == seq![0x48u8, 0x45, 0x50, 0x33] + two(
                at_most(6int + rest.len(), 65_535),
            ) + rest
        }),
{
    let e = envelope_chunks(p);
    let a = text_chunk(StandardChunk::AuthKey, p.capture_password);
    let c = text_chunk(StandardChunk::CorrelationId, p.correlation_id);
    lemma_envelope_bytes(p);
    lemma_text_tlv(StandardChunk::AuthKey, p.capture_password);
    lemma_text_tlv(StandardChunk::CorrelationId, p.correlation_id);
    lemma_chunks_bytes_concat(e, a);
    lemma_chunks_bytes_concat(e + a, c);
    lemma_push(e + a + c, StandardChunk::Payload, p.payload);
    assert((e + a + c).push(Chunk::standard(StandardChunk::Payload, p.payload)) =~= packet_chunks(
        p,
    ));
    let rest = chunks_bytes(packet_chunks(p));
    assert(encoding(p) =~= seq![0x48u8, 0x45, 0x50, 0x33] + two(
        at_most(6int + rest.len(), 65_535),
    ) + rest);
}

/// The first chunk of an encoded packet states the IP family: 2 exactly if the source is an
/// IPv4 address, and 10 exactly if it is an IPv6 address.
pub proof fn law_family_byte(p: PacketView)
    ensures
        encoding(p).len() > 13,
        encoding(p).subrange(6, 12) == seq![0u8, 0, 0, 1, 0, 7],
        encoding(p)[12] == 2 <==> p.src is V4,
        encoding(p)[12] == 10 <==> p.src is V6,
{
    law_packet_in_bytes(p);
    assert(encoding(p).subrange(6, 12) =~= seq![0u8, 0, 0, 1, 0, 7]);
}

/// The bytes of a chunk.
pub open spec fn chunk_in_bytes(chunk: Chunk) -> Seq<u8> {
    two(chunk.vendor as int) + two(chunk.kind as int) + two(6int + chunk.body.len()) + chunk.body
}

/// The bytes of a row of chunks.
pub open spec fn row_in_bytes(chunks: Seq<Chunk>) -> Seq<u8>
    decreases chunks.len(),
{
    if chunks.len() == 0 {
        seq![]
    } else {
        chunk_in_bytes(chunks[0]) + row_in_bytes(chunks.drop_first())
    }
}

/// A header, and the given bytes after it.
pub open spec fn packet_in_bytes(rest: Seq<u8>) -> Seq<u8> {
    seq![0x48u8, 0x45, 0x50, 0x33] + two(6int + rest.len()) + rest
}

/// Whether the chunk at `i` is the last one of vendor zero and of the given type.
pub open spec fn last_of(chunks: Seq<Chunk>, kind: u16, i: int) -> bool {
    &&& 0 <= i < chunks.len()
    &&& chunks[i].vendor == 0
    &&& chunks[i].kind == kind
    &&& forall|j: int|
        i < j < chunks.len() ==> !((#[trigger] chunks[j]).vendor == 0 && chunks[j].kind == kind)
}

/// Whether the last chunk of vendor zero and of the given type has the given body.
pub open spec fn holds(chunks: Seq<Chunk>, kind: u16, body: Seq<u8>) -> bool {
    exists|i: int| #[trigger] last_of(chunks, kind, i) && chunks[i].body == body
}

/// Whether there is no chunk of vendor zero and of the given type.
pub open spec fn lacks(chunks: Seq<Chunk>, kind: u16) -> bool {
    forall|i: int|
        0 <= i < chunks.len() ==> !((#[trigger] chunks[i]).vendor == 0 && chunks[i].kind == kind)
}

/// The size that a chunk type prescribes, if it prescribes one.
pub open spec fn size_of_type(kind: u16) -> Option<int> {
    if kind == 1 || kind == 2 || kind == 11 {
        Some(1int)
    } else if kind == 7 || kind == 8 {
        Some(2int)
    } else if kind == 3 || kind == 4 || kind == 9 || kind == 10 || kind == 12 {
        Some(4int)
    } else if kind == 5 || kind == 6 {
        Some(16int)
    } else {
        None
    }
}

/// Whether a chunk can be read: its body has the size that its type prescribes, a protocol
/// is a known one, and a text is UTF-8. Chunks of other vendors and of other types hold
/// what they like.
pub open spec fn readable(chunk: Chunk) -> bool {
    chunk.vendor == 0 ==> {
        &&& size_of_type(chunk.kind) matches Some(size) ==> chunk.body.len() == size
        &&& chunk.kind == 11 ==> is_protocol_number(chunk.body[0])
        &&& chunk.kind == 14 || chunk.kind == 17 ==> valid_utf8(chunk.body)
    }
}

/// Whether a socket address is made of the last chunks of the given types: an address of
/// the given family, and a port.
pub open spec fn end_of(
    chunks: Seq<Chunk>,
    end: SocketAddr,
    v4_kind: u16,
    v6_kind: u16,
    port_kind: u16,
) -> bool {
    match end {
        SocketAddr::V4 { octets, port } => {
            &&& holds(chunks, 1, seq![2u8])
            &&& holds(chunks, v4_kind, octets@)
            &&& holds(chunks, port_kind, two(port as int))
        },
        SocketAddr::V6 { octets, port, flowinfo, scope_id } => {
            &&& holds(chunks, 1, seq![10u8])
            &&& holds(chunks, v6_kind, octets@)
            &&& holds(chunks, port_kind, two(port as int))
            &&& flowinfo == 0
            &&& scope_id == 0
        },
    }
}

/// Whether a text is that of the last chunk of the given type, or is absent because there is
/// no such chunk.
pub open spec fn text_is(chunks: Seq<Chunk>, kind: u16, text: Option<Seq<char>>) -> bool {
    match text {
        Some(chars) => holds(chunks, kind, encode_utf8(chars)),
        None => lacks(chunks, kind),
    }
}

/// Whether a packet says what a row of chunks says, field by field.
pub open spec fn says(chunks: Seq<Chunk>, p: PacketView) -> bool {
    &&& end_of(chunks, p.src, 3, 5, 7)
    &&& end_of(chunks, p.dst, 4, 6, 8)
    &&& holds(chunks, 2, seq![transport_number(p.transport)])
    &&& holds(chunks, 11, seq![protocol_number(p.protocol)])
    &&& holds(chunks, 12, four(p.capture_id as int))
    &&& holds(chunks, 15, p.payload)
    &&& text_is(chunks, 14, p.capture_password)
    &&& text_is(chunks, 17, p.correlation_id)
    &&& !p.timestamp.before_epoch
    &&& p.timestamp.nanos < 1_000_000_000
    &&& exists|secs: u32, micros: u32|
        {
            &&& #[trigger] holds(chunks, 9, four(secs as int))
            &&& #[trigger] holds(chunks, 10, four(micros as int))
            &&& p.timestamp.secs * 1_000_000_000 + p.timestamp.nanos == secs * 1_000_000_000
                + at_most(micros * 1_000, 0xFFFF_FFFF)
        }
}

/// A chunk can be read exactly if nothing is wrong with it.
proof fn lemma_readable(chunk: Chunk)
    ensures
        readable(chunk) <==> chunk_error(chunk) is None,
{
}

/// A chunk that stands somewhere in a buffer is found there.
proof fn lemma_chunk_here(buf: Seq<u8>, at: int, chunk: Chunk)
    requires
        0 <= at,
        at + 6 + chunk.body.len() <= buf.len() <= 65_535,
        buf.subrange(at, at + 6 + chunk.body.len()) == chunk_in_bytes(chunk),
    ensures
        chunk_at(buf, at) == (match chunk_error(chunk) {
            Some(e) => Err::<Chunk, DecodeError>(e),
            None => Ok(chunk),
        }),
{
    let bytes = chunk_in_bytes(chunk);
    let len = (6 + chunk.body.len()) as u16;
    lemma_two(chunk.vendor);
    lemma_two(chunk.kind);
    lemma_two(len);
    lemma_u16_of_be16(chunk.vendor);
    lemma_u16_of_be16(chunk.kind);
    lemma_u16_of_be16(len);
    let here = buf.subrange(at, at + 6 + chunk.body.len());
    assert forall|i: int| 0 <= i < bytes.len() implies buf[at + i] == #[trigger] bytes[i] by {
        assert(here[i] == bytes[i]);
    }
    assert(buf.subrange(at, at + 2) =~= two(chunk.vendor as int)) by {
        assert(bytes[0] == two(chunk.vendor as int)[0]);
        assert(bytes[1] == two(chunk.vendor as int)[1]);
    }
    assert(buf.subrange(at + 2, at + 4) =~= two(chunk.kind as int)) by {
        assert(bytes[2] == two(chunk.kind as int)[0]);
        assert(bytes[3] == two(chunk.kind as int)[1]);
    }
    assert(buf.subrange(at + 4, at + 6) =~= two(len as int)) by {
        assert(bytes[4] == two(len as int)[0]);
        assert(bytes[5] == two(len as int)[1]);
    }
    assert(buf.subrange(at + 6, at + 6 + chunk.body.len()) =~= chunk.body) by {
        assert forall|i: int| 0 <= i < chunk.body.len() implies buf[at + 6 + i]
            == #[trigger] chunk.body[i] by {
            assert(bytes[6 + i] == chunk.body[i]);
        }
    }
}

/// Two pieces that stand one after the other in a buffer.
proof fn lemma_pieces(buf: Seq<u8>, at: int, a: Seq<u8>, b: Seq<u8>)
    requires
        0 <= at,
        at + a.len() + b.len() <= buf.len(),
        buf.subrange(at, at + a.len() + b.len()) == a + b,
    ensures
        buf.subrange(at, at + a.len()) == a,
        buf.subrange(at + a.len(), at + a.len() + b.len()) == b,
{
    let both = buf.subrange(at, at + a.len() + b.len());
    assert(buf.subrange(at, at + a.len()) =~= both.take(a.len() as int));
    assert(both.take(a.len() as int) =~= a);
    assert(buf.subrange(at + a.len(), at + a.len() + b.len()) =~= both.skip(a.len() as int));
    assert(both.skip(a.len() as int) =~= b);
}

/// Chunks that stand in a row in a buffer, and that can be read, are read one by one.
proof fn lemma_row_here(buf: Seq<u8>, at: nat, chunks: Seq<Chunk>)
    requires
        at + row_in_bytes(chunks).len() <= buf.len() <= 65_535,
        buf.subrange(at as int, at as int + row_in_bytes(chunks).len()) == row_in_bytes(chunks),
        forall|i: int| 0 <= i < chunks.len() ==> readable(#[trigger] chunks[i]),
    ensures
        chunks_from(buf, at) == (match chunks_from(buf, at + row_in_bytes(chunks).len()) {
            Err(e) => Err::<Seq<Chunk>, DecodeError>(e),
            Ok(rest) => Ok(chunks + rest),
        }),
    decreases chunks.len(),
{
    if chunks.len() == 0 {
        if let Ok(rest) = chunks_from(buf, at) {
            assert(chunks + rest =~= rest);
        }
    } else {
        let chunk = chunks[0];
        let others = chunks.drop_first();
        let first = chunk_in_bytes(chunk);
        let end = at + row_in_bytes(chunks).len();
        lemma_pieces(buf, at as int, first, row_in_bytes(others));
        assert(chunk_at(buf, at as int) == Ok::<Chunk, DecodeError>(chunk)) by {
            lemma_chunk_here(buf, at as int, chunk);
            assert(readable(chunks[0]));
            lemma_readable(chunk);
        }
        assert forall|i: int| 0 <= i < others.len() implies readable(#[trigger] others[i]) by {
            assert(others[i] == chunks[i + 1]);
        }
        lemma_row_here(buf, at + first.len(), others);
        if let Ok(rest) = chunks_from(buf, end) {
            assert(seq![chunk] + (others + rest) =~= chunks + rest);
        }
    }
}

/// A packet with a header that states its length gets past the header.
proof fn lemma_header_passes(rest: Seq<u8>)
    requires
        6 + rest.len() <= 65_535,
    ensures
        header_error(packet_in_bytes(rest)) is None,
        packet_in_bytes(rest).len() == 6 + rest.len(),
        packet_in_bytes(rest).skip(6) == rest,
{
    let buf = packet_in_bytes(rest);
    let len = (6 + rest.len()) as u16;
    lemma_two(len);
    lemma_u16_of_be16(len);
    assert(buf.subrange(0, 4) =~= MAGIC@);
    assert(buf.subrange(4, 6) =~= two(len as int));
    assert(buf.skip(6) =~= rest);
}

/// A packet of chunks that can be read is put together from their bodies.
proof fn lemma_row_is_assembled(chunks: Seq<Chunk>)
    requires
        6 + row_in_bytes(chunks).len() <= 65_535,
        forall|i: int| 0 <= i < chunks.len() ==> readable(#[trigger] chunks[i]),
    ensures
        decoding(packet_in_bytes(row_in_bytes(chunks))) == assembled(bodies(chunks)),
{
    let row = row_in_bytes(chunks);
    let buf = packet_in_bytes(row);
    lemma_header_passes(row);
    assert(buf.subrange(6, 6int + row.len()) =~= buf.skip(6));
    lemma_row_here(buf, 6, chunks);
    assert(chunks_from(buf, 6 + row.len()) == Ok::<Seq<Chunk>, DecodeError>(seq![]));
    assert(chunks + seq![] =~= chunks);
}

/// The last chunk of a type is the one that counts.
proof fn lemma_holds(chunks: Seq<Chunk>, kind: StandardChunk)
    ensures
        bodies(chunks).contains_key(kind) <==> !lacks(chunks, kind.id()),
        bodies(chunks).contains_key(kind) ==> holds(chunks, kind.id(), bodies(chunks)[kind]),
        forall|body: Seq<u8>| #[trigger]
            holds(chunks, kind.id(), body) ==> bodies(chunks).contains_key(kind) && bodies(
                chunks,
            )[kind] == body,
{
    assert forall|i: int| #[trigger] last_of(chunks, kind.id(), i) implies bodies(
        chunks,
    ).contains_key(kind) && bodies(chunks)[kind] == chunks[i].body by {
        assert(chunks[i].standard_type() == Some(kind));
        assert forall|j: int| i < j < chunks.len() implies (
        #[trigger] chunks[j]).standard_type() != chunks[i].standard_type() by {
            law_chunk_ids(kind, chunks[j].kind);
        }
        lemma_body_of(chunks, i);
    }
    if lacks(chunks, kind.id()) {
        assert forall|i: int| 0 <= i < chunks.len() implies (#[trigger] chunks[i]).standard_type()
            != Some(kind) by {
            law_chunk_ids(kind, chunks[i].kind);
        }
        lemma_body_absent(chunks, kind);
    } else {
        lemma_has_last(chunks, kind.id());
        let i = choose|i: int| #[trigger] last_of(chunks, kind.id(), i);
        assert(holds(chunks, kind.id(), chunks[i].body));
    }
}

/// If there is a chunk of a type, there is a last one.
proof fn lemma_has_last(chunks: Seq<Chunk>, kind: u16)
    requires
        !lacks(chunks, kind),
    ensures
        exists|i: int| #[trigger] last_of(chunks, kind, i),
    decreases chunks.len(),
{
    let n = chunks.len() - 1;
    if chunks[n].vendor == 0 && chunks[n].kind == kind {
        assert(last_of(chunks, kind, n));
    } else {
        let front = chunks.drop_last();
        let w = choose|i: int|
            0 <= i < chunks.len() && (#[trigger] chunks[i]).vendor == 0 && chunks[i].kind == kind;
        assert(front[w] == chunks[w]);
        lemma_has_last(front, kind);
        let i = choose|i: int| #[trigger] last_of(front, kind, i);
        assert forall|j: int| i < j < chunks.len() implies !((#[trigger] chunks[j]).vendor == 0
            && chunks[j].kind == kind) by {
            if j < n {
                assert(front[j] == chunks[j]);
            }
        }
        assert(last_of(chunks, kind, i));
    }
}

/// All that the bodies of readable chunks are known to be.
proof fn lemma_readable_bodies(chunks: Seq<Chunk>)
    requires
        forall|i: int| 0 <= i < chunks.len() ==> readable(#[trigger] chunks[i]),
    ensures
        forall|kind: StandardChunk| #[trigger]
            bodies(chunks).contains_key(kind) ==> readable(
                Chunk { vendor: 0, kind: kind.id(), body: bodies(chunks)[kind] },
            ),
        forall|kind: StandardChunk| #[trigger]
            bodies(chunks).contains_key(kind) <==> !lacks(chunks, kind.id()),
        forall|kind: StandardChunk| #[trigger]
            bodies(chunks).contains_key(kind) ==> holds(
                chunks,
                kind.id(),
                bodies(chunks)[kind],
            ),
        forall|kind: StandardChunk, body: Seq<u8>| #[trigger]
            holds(chunks, kind.id(), body) ==> bodies(chunks).contains_key(kind) && bodies(
                chunks,
            )[kind] == body,
{
    assert forall|i: int| 0 <= i < chunks.len() implies chunk_error(
        #[trigger] chunks[i],
    ) is None by {
        assert(readable(chunks[i]));
        lemma_readable(chunks[i]);
    }
    lemma_bodies_in_order(chunks);
    assert forall|kind: StandardChunk| #[trigger] bodies(chunks).contains_key(kind) implies readable(
        Chunk { vendor: 0, kind: kind.id(), body: bodies(chunks)[kind] },
    ) by {
        lemma_readable(Chunk { vendor: 0, kind: kind.id(), body: bodies(chunks)[kind] });
    }
    assert forall|kind: StandardChunk| #[trigger]
        bodies(chunks).contains_key(kind) <==> !lacks(chunks, kind.id()) by {
        lemma_holds(chunks, kind);
    }
    assert forall|kind: StandardChunk| #[trigger] bodies(chunks).contains_key(kind) implies holds(
        chunks,
        kind.id(),
        bodies(chunks)[kind],
    ) by {
        lemma_holds(chunks, kind);
    }
    assert forall|kind: StandardChunk, body: Seq<u8>| #[trigger]
        holds(chunks, kind.id(), body) implies bodies(chunks).contains_key(kind) && bodies(
        chunks,
    )[kind] == body by {
        lemma_holds(chunks, kind);
    }
}

/// A body of one byte is that byte.
proof fn lemma_one_byte(body: Seq<u8>)
    requires
        body.len() == 1,
    ensures
        body == seq![body[0]],
{
    assert(body =~= seq![body[0]]);
}

/// A packet that is put together from chunks says what they say.
proof fn lemma_assembled_says(chunks: Seq<Chunk>)
    requires
        forall|i: int| 0 <= i < chunks.len() ==> readable(#[trigger] chunks[i]),
        assembled(bodies(chunks)) is Ok,
    ensures
        says(chunks, assembled(bodies(chunks))->Ok_0),
{
    let m = bodies(chunks);
    let p = assembled(m)->Ok_0;
    let family = m[StandardChunk::IpFamily][0];
    lemma_readable_bodies(chunks);
    lemma_first_missing_required(m);
    lemma_first_missing_addresses(m, family);
    assert(m.contains_key(StandardChunk::IpFamily));
    assert(m.contains_key(StandardChunk::IpProtocolId));
    assert(m.contains_key(StandardChunk::SrcPort));
    assert(m.contains_key(StandardChunk::DstPort));
    assert(m.contains_key(StandardChunk::TimestampSec));
    assert(m.contains_key(StandardChunk::TimestampUsec));
    assert(m.contains_key(StandardChunk::ProtocolType));
    assert(m.contains_key(StandardChunk::CaptureAgentId));
    assert(m.contains_key(StandardChunk::Payload));
    lemma_one_byte(m[StandardChunk::IpFamily]);
    lemma_one_byte(m[StandardChunk::IpProtocolId]);
    lemma_one_byte(m[StandardChunk::ProtocolType]);
    lemma_be16_of_u16(m[StandardChunk::SrcPort]);
    lemma_be16_of_u16(m[StandardChunk::DstPort]);
    lemma_be32_of_u32(m[StandardChunk::TimestampSec]);
    lemma_be32_of_u32(m[StandardChunk::TimestampUsec]);
    lemma_be32_of_u32(m[StandardChunk::CaptureAgentId]);
    lemma_two(p.src.port());
    lemma_two(p.dst.port());
    lemma_four(p.capture_id);
    let secs = u32_of(m[StandardChunk::TimestampSec]);
    let micros = u32_of(m[StandardChunk::TimestampUsec]);
    lemma_four(secs);
    lemma_four(micros);
    assert(holds(chunks, 9, four(secs as int)));
    assert(holds(chunks, 10, four(micros as int)));
    law_protocol_bytes(p.protocol, m[StandardChunk::ProtocolType][0]);
    law_transport_bytes(p.transport, m[StandardChunk::IpProtocolId][0]);
    if family == 2 {
        assert(m.contains_key(StandardChunk::Ipv4Src) && m.contains_key(StandardChunk::Ipv4Dst));
        assert(p.src->V4_octets@ =~= m[StandardChunk::Ipv4Src]);
        assert(p.dst->V4_octets@ =~= m[StandardChunk::Ipv4Dst]);
    } else {
        assert(m.contains_key(StandardChunk::Ipv6Src) && m.contains_key(StandardChunk::Ipv6Dst));
        assert(p.src->V6_octets@ =~= m[StandardChunk::Ipv6Src]);
        assert(p.dst->V6_octets@ =~= m[StandardChunk::Ipv6Dst]);
    }
    assert(end_of(chunks, p.src, 3, 5, 7));
    assert(end_of(chunks, p.dst, 4, 6, 8));
    assert(text_is(chunks, 14, p.capture_password)) by {
        if m.contains_key(StandardChunk::AuthKey) {
            decode_utf8_encode_utf8(m[StandardChunk::AuthKey]);
        }
    }
    assert(text_is(chunks, 17, p.correlation_id)) by {
        if m.contains_key(StandardChunk::CorrelationId) {
            decode_utf8_encode_utf8(m[StandardChunk::CorrelationId]);
        }
    }
}

/// A row of chunks says one packet at most.
proof fn lemma_says_one(chunks: Seq<Chunk>, p: PacketView)
    requires
        forall|i: int| 0 <= i < chunks.len() ==> readable(#[trigger] chunks[i]),
        says(chunks, p),
    ensures
        assembled(bodies(chunks)) == Ok::<PacketView, DecodeError>(p),
{
    let m = bodies(chunks);
    lemma_readable_bodies(chunks);
    lemma_first_missing_required(m);
    lemma_first_missing_addresses(m, 2);
    lemma_first_missing_addresses(m, 10);
    let (secs, micros) = choose|secs: u32, micros: u32|
        {
            &&& #[trigger] holds(chunks, 9, four(secs as int))
            &&& #[trigger] holds(chunks, 10, four(micros as int))
            &&& p.timestamp.secs * 1_000_000_000 + p.timestamp.nanos == secs * 1_000_000_000
                + at_most(micros * 1_000, 0xFFFF_FFFF)
        };
    assert(holds(chunks, StandardChunk::IpProtocolId.id(), seq![transport_number(p.transport)]));
    assert(holds(chunks, StandardChunk::ProtocolType.id(), seq![protocol_number(p.protocol)]));
    assert(holds(chunks, StandardChunk::CaptureAgentId.id(), four(p.capture_id as int)));
    assert(holds(chunks, StandardChunk::Payload.id(), p.payload));
    assert(holds(chunks, StandardChunk::TimestampSec.id(), four(secs as int)));
    assert(holds(chunks, StandardChunk::TimestampUsec.id(), four(micros as int)));
    assert(holds(chunks, StandardChunk::SrcPort.id(), two(p.src.port() as int)));
    assert(holds(chunks, StandardChunk::DstPort.id(), two(p.dst.port() as int)));
    lemma_two(p.src.port());
    lemma_two(p.dst.port());
    lemma_u16_of_be16(p.src.port());
    lemma_u16_of_be16(p.dst.port());
    lemma_four(p.capture_id);
    lemma_four(secs);
    lemma_four(micros);
    lemma_u32_of_be32(p.capture_id);
    lemma_u32_of_be32(secs);
    lemma_u32_of_be32(micros);
    lemma_address_of_octets(p.src.ip());
    lemma_address_of_octets(p.dst.ip());
    match p.src {
        SocketAddr::V4 { octets, .. } => {
            assert(holds(chunks, StandardChunk::IpFamily.id(), seq![2u8]));
            assert(holds(chunks, StandardChunk::Ipv4Src.id(), octets@));
        },
        SocketAddr::V6 { octets, .. } => {
            assert(holds(chunks, StandardChunk::IpFamily.id(), seq![10u8]));
            assert(holds(chunks, StandardChunk::Ipv6Src.id(), octets@));
        },
    }
    let family = m[StandardChunk::IpFamily][0];
    match p.dst {
        SocketAddr::V4 { octets, .. } => {
            assert(holds(chunks, StandardChunk::IpFamily.id(), seq![2u8]));
            assert(m[StandardChunk::IpFamily] == seq![2u8]);
            assert(seq![2u8][0] == 2);
            assert(seq![10u8][0] == 10);
            assert(holds(chunks, StandardChunk::Ipv4Dst.id(), octets@));
        },
        SocketAddr::V6 { octets, .. } => {
            assert(holds(chunks, StandardChunk::IpFamily.id(), seq![10u8]));
            assert(m[StandardChunk::IpFamily] == seq![10u8]);
            assert(seq![2u8][0] == 2);
            assert(seq![10u8][0] == 10);
            assert(holds(chunks, StandardChunk::Ipv6Dst.id(), octets@));
        },
    }
    match p.capture_password {
        Some(chars) => {
            assert(holds(chunks, StandardChunk::AuthKey.id(), encode_utf8(chars)));
            encode_utf8_decode_utf8(chars);
        },
        None => {
            assert(lacks(chunks, StandardChunk::AuthKey.id()));
            assert(!m.contains_key(StandardChunk::AuthKey));
        },
    }
    match p.correlation_id {
        Some(chars) => {
            assert(holds(chunks, StandardChunk::CorrelationId.id(), encode_utf8(chars)));
            encode_utf8_decode_utf8(chars);
        },
        None => {
            assert(lacks(chunks, StandardChunk::CorrelationId.id()));
            assert(!m.contains_key(StandardChunk::CorrelationId));
        },
    }
    assert(assembled(m) is Ok);
    let q = assembled(m)->Ok_0;
    assert(q.timestamp == p.timestamp);
    assert(q.src == p.src);
    assert(q.dst == p.dst);
    assert(q =~= p);
}

/// A packet of readable chunks is decoded to the packet that says what they say, and to no
/// other: the family 2 or 10, the address chunks of that family, the password from type 14
/// alone, the correlation ID from type 17 alone, and so on. If no packet says what they say,
/// it is refused.
pub proof fn law_decoded_packet_says_what_its_chunks_say(chunks: Seq<Chunk>, p: PacketView)
    requires
        6 + row_in_bytes(chunks).len() <= 65_535,
        forall|i: int| 0 <= i < chunks.len() ==> readable(#[trigger] chunks[i]),
    ensures
        decoding(packet_in_bytes(row_in_bytes(chunks))) == Ok::<PacketView, DecodeError>(p)
            <==> says(chunks, p),
{
    lemma_row_is_assembled(chunks);
    if assembled(bodies(chunks)) is Ok {
        lemma_assembled_says(chunks);
    }
    if says(chunks, p) {
        lemma_says_one(chunks, p);
    }
}

/// What is wrong with the header of a buffer: fewer than six bytes, four bytes that are not
/// `HEP3`, or a length that is not that of the buffer, in this order. A buffer of which none
/// of these holds gets past the header.
pub proof fn law_header_errors(buf: Seq<u8>)
    ensures
        buf.len() < 6 ==> decoding(buf) == Err::<PacketView, DecodeError>(
            DecodeError::Truncated(buf.len() as usize),
        ),
        buf.len() >= 6 && !(buf[0] == 0x48 && buf[1] == 0x45 && buf[2] == 0x50 && buf[3] == 0x33)
            ==> decoding(buf) == Err::<PacketView, DecodeError>(
            DecodeError::BadMagic([buf[0], buf[1], buf[2], buf[3]]),
        ),
        buf.len() >= 6 && buf[0] == 0x48 && buf[1] == 0x45 && buf[2] == 0x50 && buf[3] == 0x33
            && buf[4] * 256 + buf[5] != buf.len() ==> decoding(buf) == Err::<
            PacketView,
            DecodeError,
        >(
            DecodeError::LengthMismatch {
                claimed: (buf[4] * 256 + buf[5]) as usize,
                actual: buf.len() as usize,
            },
        ),
        decoding(buf) is Ok || !(decoding(buf)->Err_0 is Truncated || decoding(buf)->Err_0
            is BadMagic || decoding(buf)->Err_0 is LengthMismatch) ==> buf.len() >= 6 && buf[0]
            == 0x48 && buf[1] == 0x45 && buf[2] == 0x50 && buf[3] == 0x33 && buf[4] * 256 + buf[5]
            == buf.len(),
{
    if buf.len() >= 6 {
        let magic = buf.subrange(0, 4);
        assert(magic[0] == buf[0] && magic[1] == buf[1] && magic[2] == buf[2] && magic[3] == buf[3]);
        if buf[0] == 0x48 && buf[1] == 0x45 && buf[2] == 0x50 && buf[3] == 0x33 {
            assert(magic =~= MAGIC@);
        } else {
            assert(MAGIC@[0] == 0x48 && MAGIC@[1] == 0x45
                && MAGIC@[2] == 0x50 && MAGIC@[3] == 0x33);
        }
    }
}

/// The bytes of a row of chunks that are not too long for their length fields.
proof fn lemma_row_is_chunks_bytes(chunks: Seq<Chunk>)
    requires
        total_len(chunks) <= 65_535,
    ensures
        row_in_bytes(chunks) == chunks_bytes(chunks),
    decreases chunks.len(),
{
    if chunks.len() > 0 {
        let first = chunks[0];
        let others = chunks.drop_first();
        assert(seq![first] + others =~= chunks);
        lemma_total_len_cons(first, others);
        lemma_row_is_chunks_bytes(others);
        lemma_chunks_bytes_concat(seq![first], others);
        lemma_chunks_bytes_one(first);
        lemma_two(first.vendor);
        lemma_two(first.kind);
        lemma_two((6 + first.body.len()) as u16);
    }
}

/// A packet of chunks that fits its length fields, in bytes.
proof fn lemma_frame_in_bytes(chunks: Seq<Chunk>)
    requires
        6 + total_len(chunks) <= 65_535,
    ensures
        frame(chunks) == packet_in_bytes(row_in_bytes(chunks)),
        row_in_bytes(chunks).len() == total_len(chunks),
{
    lemma_row_is_chunks_bytes(chunks);
    lemma_chunks_bytes_len(chunks);
    lemma_two(frame_len(chunks) as u16);
    assert(MAGIC@ =~= seq![0x48u8, 0x45, 0x50, 0x33]);
}

/// A buffer that is decoded is a header and the chunks that are read from it.
proof fn lemma_decoded_buffer(buf: Seq<u8>)
    requires
        decoding(buf) is Ok,
    ensures
        buf == packet_in_bytes(row_in_bytes(chunks_from(buf, 6)->Ok_0)),
        6 + row_in_bytes(chunks_from(buf, 6)->Ok_0).len() <= 65_535,
{
    law_decodable_buffer_is_a_frame(buf);
    lemma_chunks_read(buf, 6);
    lemma_frame_in_bytes(chunks_from(buf, 6)->Ok_0);
}

/// Every buffer that is decoded is a header and a row of readable chunks. So
/// [`law_decoded_packet_says_what_its_chunks_say`] speaks of all that is ever decoded.
pub proof fn law_decoded_buffer_is_a_row(buf: Seq<u8>)
    requires
        decoding(buf) is Ok,
    ensures
        exists|chunks: Seq<Chunk>|
            {
                &&& buf == packet_in_bytes(#[trigger] row_in_bytes(chunks))
                &&& 6 + row_in_bytes(chunks).len() <= 65_535
                &&& forall|i: int| 0 <= i < chunks.len() ==> readable(#[trigger] chunks[i])
                &&& says(chunks, decoding(buf)->Ok_0)
            },
{
    let chunks = chunks_from(buf, 6)->Ok_0;
    lemma_decoded_buffer(buf);
    lemma_chunks_read(buf, 6);
    assert forall|i: int| 0 <= i < chunks.len() implies readable(#[trigger] chunks[i]) by {
        lemma_readable(chunks[i]);
    }
    law_decoded_packet_says_what_its_chunks_say(chunks, decoding(buf)->Ok_0);
}

/// The chunk types that every packet must have, in the order in which they are missed.
pub open spec fn must_have() -> Seq<(u16, StandardChunk)> {
    seq![
        (1u16, StandardChunk::IpFamily),
        (2u16, StandardChunk::IpProtocolId),
        (7u16, StandardChunk::SrcPort),
        (8u16, StandardChunk::DstPort),
        (9u16, StandardChunk::TimestampSec),
        (10u16, StandardChunk::TimestampUsec),
        (11u16, StandardChunk::ProtocolType),
        (12u16, StandardChunk::CaptureAgentId),
        (15u16, StandardChunk::Payload),
    ]
}

/// A packet of readable chunks is refused for the first type of [`must_have`] that it lacks.
pub proof fn law_missing_chunk(chunks: Seq<Chunk>, n: int)
    requires
        6 + row_in_bytes(chunks).len() <= 65_535,
        forall|i: int| 0 <= i < chunks.len() ==> readable(#[trigger] chunks[i]),
        0 <= n < must_have().len(),
        lacks(chunks, must_have()[n].0),
        forall|i: int| 0 <= i < n ==> !lacks(chunks, (#[trigger] must_have()[i]).0),
    ensures
        decoding(packet_in_bytes(row_in_bytes(chunks))) == Err::<PacketView, DecodeError>(
            DecodeError::MissingChunk(must_have()[n].1),
        ),
{
    let m = bodies(chunks);
    lemma_row_is_assembled(chunks);
    lemma_readable_bodies(chunks);
    lemma_first_missing_required(m);
    assert forall|i: int| 0 <= i <= n implies m.contains_key((#[trigger] must_have()[i]).1) == (i
        < n) by {
        assert(must_have()[i].1.id() == must_have()[i].0);
    }
    assert(n > 0 ==> m.contains_key(must_have()[0].1));
    assert(n > 1 ==> m.contains_key(must_have()[1].1));
    assert(n > 2 ==> m.contains_key(must_have()[2].1));
    assert(n > 3 ==> m.contains_key(must_have()[3].1));
    assert(n > 4 ==> m.contains_key(must_have()[4].1));
    assert(n > 5 ==> m.contains_key(must_have()[5].1));
    assert(n > 6 ==> m.contains_key(must_have()[6].1));
    assert(n > 7 ==> m.contains_key(must_have()[7].1));
    assert(!m.contains_key(must_have()[n].1));
}

/// A packet of readable chunks that has all that it must have is refused for an unknown
/// transport, then for an unknown IP family, then for the first address of its family that
/// it lacks. Otherwise it is decoded.
pub proof fn law_unknown_transport_and_family(chunks: Seq<Chunk>, family: u8, transport: u8)
    requires
        6 + row_in_bytes(chunks).len() <= 65_535,
        forall|i: int| 0 <= i < chunks.len() ==> readable(#[trigger] chunks[i]),
        forall|i: int| 0 <= i < must_have().len() ==> !lacks(chunks, (#[trigger] must_have()[i]).0),
        holds(chunks, 1, seq![family]),
        holds(chunks, 2, seq![transport]),
    ensures
        ({
            let known = transport == 6 || transport == 17 || transport == 132;
            let r = decoding(packet_in_bytes(row_in_bytes(chunks)));
            &&& !known ==> r == Err::<PacketView, DecodeError>(
                DecodeError::UnsupportedIpProtocol(transport),
            )
            &&& known && family != 2 && family != 10 ==> r == Err::<PacketView, DecodeError>(
                DecodeError::UnsupportedIpFamily(family),
            )
            &&& known && family == 2 && lacks(chunks, 3) ==> r == Err::<PacketView, DecodeError>(
                DecodeError::MissingChunk(StandardChunk::Ipv4Src),
            )
            &&& known && family == 2 && !lacks(chunks, 3) && lacks(chunks, 4) ==> r == Err::<
                PacketView,
                DecodeError,
            >(DecodeError::MissingChunk(StandardChunk::Ipv4Dst))
            &&& known && family == 10 && lacks(chunks, 5) ==> r == Err::<PacketView, DecodeError>(
                DecodeError::MissingChunk(StandardChunk::Ipv6Src),
            )
            &&& known && family == 10 && !lacks(chunks, 5) && lacks(chunks, 6) ==> r == Err::<
                PacketView,
                DecodeError,
            >(DecodeError::MissingChunk(StandardChunk::Ipv6Dst))
            &&& known && family == 2 && !lacks(chunks, 3) && !lacks(chunks, 4) ==> r is Ok
            &&& known && family == 10 && !lacks(chunks, 5) && !lacks(chunks, 6) ==> r is Ok
        }),
{
    let m = bodies(chunks);
    lemma_row_is_assembled(chunks);
    lemma_readable_bodies(chunks);
    lemma_first_missing_required(m);
    lemma_first_missing_addresses(m, family);
    assert forall|i: int| 0 <= i < must_have().len() implies m.contains_key(
        (#[trigger] must_have()[i]).1,
    ) by {
        assert(must_have()[i].1.id() == must_have()[i].0);
    }
    assert(m.contains_key(must_have()[0].1) && m.contains_key(must_have()[1].1) && m.contains_key(
        must_have()[2].1,
    ) && m.contains_key(must_have()[3].1) && m.contains_key(must_have()[4].1) && m.contains_key(
        must_have()[5].1,
    ) && m.contains_key(must_have()[6].1) && m.contains_key(must_have()[7].1) && m.contains_key(
        must_have()[8].1,
    ));
    assert(holds(chunks, StandardChunk::IpFamily.id(), seq![family]));
    assert(holds(chunks, StandardChunk::IpProtocolId.id(), seq![transport]));
    assert(seq![family][0] == family);
    assert(seq![transport][0] == transport);
    assert(m.contains_key(StandardChunk::Ipv4Src) <==> !lacks(chunks, 3));
    assert(m.contains_key(StandardChunk::Ipv4Dst) <==> !lacks(chunks, 4));
    assert(m.contains_key(StandardChunk::Ipv6Src) <==> !lacks(chunks, 5));
    assert(m.contains_key(StandardChunk::Ipv6Dst) <==> !lacks(chunks, 6));
}

/// The standard chunk type with a number from 1 on, for those that can be unreadable.
pub open spec fn type_numbered(kind: u16) -> StandardChunk {
    if kind == 1 {
        StandardChunk::IpFamily
    } else if kind == 2 {
        StandardChunk::IpProtocolId
    } else if kind == 3 {
        StandardChunk::Ipv4Src
    } else if kind == 4 {
        StandardChunk::Ipv4Dst
    } else if kind == 5 {
        StandardChunk::Ipv6Src
    } else if kind == 6 {
        StandardChunk::Ipv6Dst
    } else if kind == 7 {
        StandardChunk::SrcPort
    } else if kind == 8 {
        StandardChunk::DstPort
    } else if kind == 9 {
        StandardChunk::TimestampSec
    } else if kind == 10 {
        StandardChunk::TimestampUsec
    } else if kind == 11 {
        StandardChunk::ProtocolType
    } else if kind == 12 {
        StandardChunk::CaptureAgentId
    } else if kind == 14 {
        StandardChunk::AuthKey
    } else {
        StandardChunk::CorrelationId
    }
}

/// What is wrong with an unreadable chunk: the size of its body, an unknown protocol, or a
/// text that is not UTF-8.
pub open spec fn why_unreadable(chunk: Chunk) -> DecodeError {
    match size_of_type(chunk.kind) {
        Some(size) => if chunk.body.len() != size {
            DecodeError::BadSize {
                kind: type_numbered(chunk.kind),
                got: chunk.body.len() as usize,
                expected: size as usize,
            }
        } else {
            DecodeError::UnsupportedHepProtocol(chunk.body[0])
        },
        None => DecodeError::NotUtf8(type_numbered(chunk.kind)),
    }
}

/// An unreadable chunk is refused for what is wrong with it.
proof fn lemma_unreadable(chunk: Chunk)
    requires
        !readable(chunk),
    ensures
        chunk_error(chunk) == Some(why_unreadable(chunk)),
{
}

/// A packet that starts with readable chunks is read on after them.
proof fn lemma_read_on(before: Seq<Chunk>, rest: Seq<u8>)
    requires
        6 + row_in_bytes(before).len() + rest.len() <= 65_535,
        forall|i: int| 0 <= i < before.len() ==> readable(#[trigger] before[i]),
    ensures
        ({
            let buf = packet_in_bytes(row_in_bytes(before) + rest);
            let at = 6 + row_in_bytes(before).len();
            &&& buf.len() == at + rest.len()
            &&& buf.skip(at as int) == rest
            &&& chunks_from(buf, at) matches Err(e) ==> decoding(buf) == Err::<
                PacketView,
                DecodeError,
            >(e)
        }),
{
    let row = row_in_bytes(before);
    let buf = packet_in_bytes(row + rest);
    lemma_header_passes(row + rest);
    assert(buf.subrange(6, 6int + row.len() + rest.len()) =~= buf.skip(6));
    lemma_pieces(buf, 6, row, rest);
    assert(buf.skip(6int + row.len()) =~= buf.subrange(
        6int + row.len(),
        6int + row.len() + rest.len(),
    ));
    lemma_row_here(buf, 6, before);
}

/// A packet is refused for its first unreadable chunk, whatever comes after it, as
/// [`why_unreadable`] says.
pub proof fn law_first_unreadable_chunk(before: Seq<Chunk>, chunk: Chunk, after: Seq<u8>)
    requires
        6 + row_in_bytes(before).len() + (6 + chunk.body.len()) + after.len() <= 65_535,
        forall|i: int| 0 <= i < before.len() ==> readable(#[trigger] before[i]),
        !readable(chunk),
    ensures
        decoding(packet_in_bytes(row_in_bytes(before) + (chunk_in_bytes(chunk) + after))) == Err::<
            PacketView,
            DecodeError,
        >(why_unreadable(chunk)),
{
    let one = chunk_in_bytes(chunk);
    let buf = packet_in_bytes(row_in_bytes(before) + (one + after));
    let at = 6 + row_in_bytes(before).len();
    lemma_read_on(before, one + after);
    assert(buf.subrange(at as int, at as int + one.len() + after.len()) =~= buf.skip(at as int));
    lemma_pieces(buf, at as int, one, after);
    lemma_chunk_here(buf, at as int, chunk);
    lemma_unreadable(chunk);
}

/// Bytes after a row of readable chunks that are no chunk themselves: too few for the header
/// of a chunk, a length that is less than that header, or a length that runs past the end.
/// The offset is that of the first of these bytes.
pub proof fn law_broken_tail(before: Seq<Chunk>, tail: Seq<u8>)
    requires
        6 + row_in_bytes(before).len() + tail.len() <= 65_535,
        forall|i: int| 0 <= i < before.len() ==> readable(#[trigger] before[i]),
        tail.len() > 0,
        tail.len() < 6 || tail[4] * 256 + tail[5] < 6 || tail[4] * 256 + tail[5] > tail.len(),
    ensures
        decoding(packet_in_bytes(row_in_bytes(before) + tail)) == Err::<PacketView, DecodeError>(
            if tail.len() >= 6 && tail[4] * 256 + tail[5] < 6 {
                DecodeError::UndersizedChunk((tail[4] * 256 + tail[5]) as u16)
            } else {
                DecodeError::TruncatedChunk { offset: (6 + row_in_bytes(before).len()) as usize }
            },
        ),
{
    let buf = packet_in_bytes(row_in_bytes(before) + tail);
    let at = 6 + row_in_bytes(before).len();
    lemma_read_on(before, tail);
    if tail.len() >= 6 {
        assert(buf.skip(at as int)[4] == buf[at as int + 4]);
        assert(buf.skip(at as int)[5] == buf[at as int + 5]);
        assert(u16_of(buf.subrange(at as int + 4, at as int + 6)) == tail[4] * 256 + tail[5]);
    }
}

} // verus!
