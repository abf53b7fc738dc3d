//! What holds of the format as a whole.

use vstd::prelude::*;
use vstd::utf8::{
    decode_utf8_encode_utf8, encode_utf8, encode_utf8_decode_utf8, encode_utf8_valid_utf8,
};

use crate::addr::{IpAddr, SocketAddr};
use crate::bytes::{be16, be32, lemma_be16_of_u16, lemma_u16_of_be16, lemma_u32_of_be32, u16_of};
use crate::chunk::{
    chunks_bytes, clamp_len, frame, frame_len, Chunk, StandardChunk, CHUNK_HEADER_LEN, HEADER_LEN,
    MAGIC,
};
use crate::decode::{
    absorb_error, absorbed, address_chunks, assembled, bodies, body_error, chunk_at, chunk_error,
    chunks_from, decoding, is_text, lemma_address_of_octets, lemma_first_missing_addresses,
    lemma_first_missing_required, text_of, u16_in, u32_in, u8_in, wire_time, DecodeError,
};
use crate::encode::{
    encoding, envelope_chunks, family_of, packet_chunks, text_chunk, wire_secs, wire_usecs,
};
use crate::packet::{HepPacket, HepProtocol, IpProto, PacketView};
use crate::time::{Timestamp, NANOS_PER_MICRO, NANOS_PER_SEC};

verus! {

/// What is wrong with the first of `chunks` that is not in order, if one is not.
pub open spec fn first_error(chunks: Seq<Chunk>) -> Option<DecodeError>
    decreases chunks.len(),
{
    if chunks.len() == 0 {
        None
    } else if chunk_error(chunks[0]) is Some {
        chunk_error(chunks[0])
    } else {
        first_error(chunks.drop_first())
    }
}

/// The bytes of two rows of chunks are those of the first, then those of the
/// second.
pub proof fn lemma_chunks_bytes_concat(a: Seq<Chunk>, b: Seq<Chunk>)
    ensures
        chunks_bytes(a + b) == chunks_bytes(a) + chunks_bytes(b),
    decreases b.len(),
{
    if b.len() == 0 {
        assert(a + b =~= a);
        assert(chunks_bytes(a) + chunks_bytes(b) =~= chunks_bytes(a));
    } else {
        lemma_chunks_bytes_concat(a, b.drop_last());
        assert((a + b).drop_last() =~= a + b.drop_last());
        assert(chunks_bytes(a + b) =~= chunks_bytes(a) + chunks_bytes(b));
    }
}

/// The bytes of a row of one chunk.
pub proof fn lemma_chunks_bytes_one(chunk: Chunk)
    ensures
        chunks_bytes(seq![chunk]) == chunk.wire_bytes(),
{
    assert(seq![chunk].drop_last() =~= seq![]);
    assert(chunks_bytes(seq![]) =~= seq![]);
    assert(chunks_bytes(seq![chunk]) =~= chunk.wire_bytes());
}

/// The bytes around one chunk of a packet.
proof fn lemma_frame_around(chunks: Seq<Chunk>, i: int)
    requires
        0 <= i < chunks.len(),
    ensures
        ({
            let at = frame_len(chunks.take(i)) as int;
            let chunk = chunks[i];
            &&& at + chunk.wire_len() == frame_len(chunks.take(i + 1))
            &&& at + chunk.wire_len() <= frame(chunks).len()
            &&& frame(chunks).subrange(at, at + chunk.wire_len()) == chunk.wire_bytes()
        }),
{
    let before = chunks.take(i);
    let chunk = chunks[i];
    let after = chunks.skip(i + 1);
    assert(chunks.take(i + 1) =~= before + seq![chunk]);
    assert(chunks =~= before + seq![chunk] + after);
    lemma_chunks_bytes_one(chunk);
    lemma_chunks_bytes_concat(before, seq![chunk]);
    lemma_chunks_bytes_concat(before + seq![chunk], after);
    let at = frame_len(before) as int;
    assert(frame(chunks).subrange(at, at + chunk.wire_len()) =~= chunk.wire_bytes());
}

/// A chunk is read back from a packet that holds it.
proof fn lemma_chunk_at(chunks: Seq<Chunk>, i: int)
    requires
        0 <= i < chunks.len(),
        frame_len(chunks) <= u16::MAX,
    ensures
        chunk_at(frame(chunks), frame_len(chunks.take(i)) as int) == (match chunk_error(chunks[i]) {
            Some(e) => Err::<Chunk, DecodeError>(e),
            None => Ok(chunks[i]),
        }),
{
    lemma_frame_around(chunks, i);
    let buf = frame(chunks);
    let at = frame_len(chunks.take(i)) as int;
    let chunk = chunks[i];
    let bytes = chunk.wire_bytes();
    let len = clamp_len(chunk.wire_len());
    assert(len == chunk.wire_len());
    assert(buf.subrange(at, at + 2) =~= bytes.subrange(0, 2));
    assert(buf.subrange(at + 2, at + 4) =~= bytes.subrange(2, 4));
    assert(buf.subrange(at + 4, at + 6) =~= bytes.subrange(4, 6));
    assert(buf.subrange(at + 6, at + len) =~= bytes.subrange(6, len as int));
    assert(bytes.subrange(0, 2) =~= be16(chunk.vendor));
    assert(bytes.subrange(2, 4) =~= be16(chunk.kind));
    assert(bytes.subrange(4, 6) =~= be16(len));
    assert(bytes.subrange(6, len as int) =~= chunk.body);
    lemma_u16_of_be16(chunk.vendor);
    lemma_u16_of_be16(chunk.kind);
    lemma_u16_of_be16(len);
}

/// The chunks from the `i`-th on are read back from a packet.
proof fn lemma_chunks_from(chunks: Seq<Chunk>, i: int)
    requires
        0 <= i <= chunks.len(),
        frame_len(chunks) <= u16::MAX,
    ensures
        chunks_from(frame(chunks), frame_len(chunks.take(i))) == (match first_error(
            chunks.skip(i),
        ) {
            Some(e) => Err::<Seq<Chunk>, DecodeError>(e),
            None => Ok(chunks.skip(i)),
        }),
    decreases chunks.len() - i,
{
    if i == chunks.len() {
        assert(chunks.take(i) =~= chunks);
        assert(chunks.skip(i) =~= seq![]);
    } else {
        lemma_chunk_at(chunks, i);
        lemma_frame_around(chunks, i);
        lemma_chunks_from(chunks, i + 1);
        let rest = chunks.skip(i + 1);
        assert(chunks.skip(i).drop_first() =~= rest);
        assert(chunks.skip(i) =~= seq![chunks[i]] + rest);
    }
}

/// The header of a packet states the magic and the length of the packet.
///
/// A packet starts with `HEP3`, and the next two bytes are its length wherever
/// two bytes can hold it.
pub proof fn law_header_is_well_formed(chunks: Seq<Chunk>)
    ensures
        frame(chunks).len() == frame_len(chunks),
        frame(chunks).subrange(0, 4) == MAGIC@,
        u16_of(frame(chunks).subrange(4, 6)) == clamp_len(frame_len(chunks)),
        frame_len(chunks) <= u16::MAX ==> u16_of(frame(chunks).subrange(4, 6)) == frame(
            chunks,
        ).len(),
{
    let buf = frame(chunks);
    assert(buf.subrange(0, 4) =~= MAGIC@);
    assert(buf.subrange(4, 6) =~= be16(clamp_len(frame_len(chunks))));
    lemma_u16_of_be16(clamp_len(frame_len(chunks)));
}

/// A packet of any chunks is decoded chunk by chunk: the first chunk that is not
/// in order decides, and where all are, the packet is put together from their
/// bodies.
pub proof fn law_frame_is_decoded_chunk_by_chunk(chunks: Seq<Chunk>)
    requires
        frame_len(chunks) <= u16::MAX,
    ensures
        decoding(frame(chunks)) == (match first_error(chunks) {
            Some(e) => Err::<PacketView, DecodeError>(e),
            None => assembled(bodies(chunks)),
        }),
{
    law_header_is_well_formed(chunks);
    lemma_chunks_from(chunks, 0);
    assert(chunks.skip(0) =~= chunks);
    assert(chunks.take(0) =~= seq![]);
    assert(chunks_bytes(seq![]) =~= seq![]);
}

/// In a row of chunks, the first error of the first part comes before that of
/// the second.
proof fn lemma_first_error_concat(a: Seq<Chunk>, b: Seq<Chunk>)
    ensures
        first_error(a + b) == (if first_error(a) is Some {
            first_error(a)
        } else {
            first_error(b)
        }),
    decreases a.len(),
{
    if a.len() == 0 {
        assert(a + b =~= b);
    } else {
        lemma_first_error_concat(a.drop_first(), b);
        assert((a + b).drop_first() =~= a.drop_first() + b);
    }
}

/// The first error of a row of one chunk.
proof fn lemma_first_error_one(chunk: Chunk)
    ensures
        first_error(seq![chunk]) == chunk_error(chunk),
{
    assert(seq![chunk].drop_first() =~= seq![]);
    assert(first_error(seq![]) is None);
}

/// In a row of chunks, the bodies of the second part supersede those of the
/// first.
proof fn lemma_bodies_concat(a: Seq<Chunk>, b: Seq<Chunk>)
    ensures
        bodies(a + b) == bodies(a).union_prefer_right(bodies(b)),
    decreases b.len(),
{
    if b.len() == 0 {
        assert(a + b =~= a);
        assert(bodies(a + b) =~= bodies(a).union_prefer_right(bodies(b)));
    } else {
        lemma_bodies_concat(a, b.drop_last());
        assert((a + b).drop_last() =~= a + b.drop_last());
        assert(bodies(a + b) =~= bodies(a).union_prefer_right(bodies(b)));
    }
}

/// The bodies of a row of one chunk.
proof fn lemma_bodies_one(chunk: Chunk)
    ensures
        bodies(seq![chunk]) == (match chunk.standard_type() {
            Some(kind) => Map::empty().insert(kind, chunk.body),
            None => Map::empty(),
        }),
{
    assert(seq![chunk].drop_last() =~= seq![]);
    assert(bodies(seq![]) =~= Map::empty());
}

/// A chunk of a standard type leaves a body of that type.
pub proof fn lemma_bodies_contains(chunks: Seq<Chunk>, i: int)
    requires
        0 <= i < chunks.len(),
        chunks[i].standard_type() is Some,
    ensures
        bodies(chunks).contains_key(chunks[i].standard_type()->0),
    decreases chunks.len(),
{
    if i < chunks.len() - 1 {
        lemma_bodies_contains(chunks.drop_last(), i);
    }
}

/// Leaving a chunk out of a packet makes the packet shorter.
proof fn lemma_frame_len_without(a: Seq<Chunk>, chunk: Chunk, b: Seq<Chunk>)
    ensures
        frame_len(a + b) + chunk.wire_len() == frame_len(a + seq![chunk] + b),
{
    lemma_chunks_bytes_concat(a, b);
    lemma_chunks_bytes_concat(a, seq![chunk]);
    lemma_chunks_bytes_concat(a + seq![chunk], b);
    lemma_chunks_bytes_one(chunk);
}

/// A chunk that is not of a standard type is skipped.
///
/// Wherever a chunk of another vendor or of an unknown type stands in a packet,
/// the packet decodes as it does without that chunk.
pub proof fn law_unknown_chunk_is_ignored(a: Seq<Chunk>, chunk: Chunk, b: Seq<Chunk>)
    requires
        chunk.standard_type() is None,
        frame_len(a + seq![chunk] + b) <= u16::MAX,
    ensures
        decoding(frame(a + seq![chunk] + b)) == decoding(frame(a + b)),
{
    lemma_frame_len_without(a, chunk, b);
    law_frame_is_decoded_chunk_by_chunk(a + seq![chunk] + b);
    law_frame_is_decoded_chunk_by_chunk(a + b);
    lemma_first_error_concat(a, b);
    lemma_first_error_concat(a, seq![chunk]);
    lemma_first_error_concat(a + seq![chunk], b);
    lemma_first_error_one(chunk);
    lemma_bodies_concat(a, b);
    lemma_bodies_concat(a, seq![chunk]);
    lemma_bodies_concat(a + seq![chunk], b);
    lemma_bodies_one(chunk);
    assert(bodies(a + seq![chunk]) =~= bodies(a));
}

/// Of several chunks of one type, the last one counts.
///
/// A chunk that is in order, and after which another one of its type follows,
/// can be left out of the packet.
pub proof fn law_last_chunk_of_a_type_counts(a: Seq<Chunk>, chunk: Chunk, b: Seq<Chunk>)
    requires
        chunk.standard_type() is Some,
        chunk_error(chunk) is None,
        exists|i: int|
            0 <= i < b.len() && (#[trigger] b[i]).standard_type() == chunk.standard_type(),
        frame_len(a + seq![chunk] + b) <= u16::MAX,
    ensures
        decoding(frame(a + seq![chunk] + b)) == decoding(frame(a + b)),
{
    let i = choose|i: int|
        0 <= i < b.len() && (#[trigger] b[i]).standard_type() == chunk.standard_type();
    lemma_bodies_contains(b, i);
    lemma_frame_len_without(a, chunk, b);
    law_frame_is_decoded_chunk_by_chunk(a + seq![chunk] + b);
    law_frame_is_decoded_chunk_by_chunk(a + b);
    lemma_first_error_concat(a, b);
    lemma_first_error_concat(a, seq![chunk]);
    lemma_first_error_concat(a + seq![chunk], b);
    lemma_first_error_one(chunk);
    lemma_bodies_concat(a, b);
    lemma_bodies_concat(a, seq![chunk]);
    lemma_bodies_concat(a + seq![chunk], b);
    lemma_bodies_one(chunk);
    assert(bodies(a + seq![chunk] + b) =~= bodies(a + b));
}

/// Chunks of different types may come in any order.
///
/// Two neighbouring chunks that are in order, and are not of one standard type,
/// can change places.
pub proof fn law_order_of_types_is_free(a: Seq<Chunk>, x: Chunk, y: Chunk, b: Seq<Chunk>)
    requires
        x.standard_type() is None || x.standard_type() != y.standard_type(),
        chunk_error(x) is None,
        chunk_error(y) is None,
        frame_len(a + seq![x] + seq![y] + b) <= u16::MAX,
    ensures
        decoding(frame(a + seq![x] + seq![y] + b)) == decoding(frame(a + seq![y] + seq![x] + b)),
{
    let xy = a + seq![x] + seq![y];
    let yx = a + seq![y] + seq![x];
    lemma_chunks_bytes_concat(a, seq![x]);
    lemma_chunks_bytes_concat(a + seq![x], seq![y]);
    lemma_chunks_bytes_concat(xy, b);
    lemma_chunks_bytes_concat(a, seq![y]);
    lemma_chunks_bytes_concat(a + seq![y], seq![x]);
    lemma_chunks_bytes_concat(yx, b);
    law_frame_is_decoded_chunk_by_chunk(xy + b);
    law_frame_is_decoded_chunk_by_chunk(yx + b);
    lemma_first_error_one(x);
    lemma_first_error_one(y);
    lemma_first_error_concat(a, seq![x]);
    lemma_first_error_concat(a + seq![x], seq![y]);
    lemma_first_error_concat(xy, b);
    lemma_first_error_concat(a, seq![y]);
    lemma_first_error_concat(a + seq![y], seq![x]);
    lemma_first_error_concat(yx, b);
    lemma_bodies_one(x);
    lemma_bodies_one(y);
    lemma_bodies_concat(a, seq![x]);
    lemma_bodies_concat(a + seq![x], seq![y]);
    lemma_bodies_concat(xy, b);
    lemma_bodies_concat(a, seq![y]);
    lemma_bodies_concat(a + seq![y], seq![x]);
    lemma_bodies_concat(yx, b);
    assert(bodies(xy) =~= bodies(yx));
}

/// The body of a chunk that no later chunk of its type supersedes.
pub proof fn lemma_body_of(chunks: Seq<Chunk>, i: int)
    requires
        0 <= i < chunks.len(),
        chunks[i].standard_type() is Some,
        forall|j: int|
            i < j < chunks.len() ==> (#[trigger] chunks[j]).standard_type()
                != chunks[i].standard_type(),
    ensures
        bodies(chunks).contains_key(chunks[i].standard_type()->0),
        bodies(chunks)[chunks[i].standard_type()->0] == chunks[i].body,
    decreases chunks.len(),
{
    if i < chunks.len() - 1 {
        let front = chunks.drop_last();
        assert forall|j: int| i < j < front.len() implies (#[trigger] front[j]).standard_type()
            != front[i].standard_type() by {
            assert(front[j] == chunks[j]);
        }
        lemma_body_of(front, i);
        assert(chunks[chunks.len() - 1].standard_type() != chunks[i].standard_type());
    }
}

/// No chunk of a type leaves no body of that type.
pub proof fn lemma_body_absent(chunks: Seq<Chunk>, kind: StandardChunk)
    requires
        forall|i: int|
            0 <= i < chunks.len() ==> (#[trigger] chunks[i]).standard_type() != Some(kind),
    ensures
        !bodies(chunks).contains_key(kind),
    decreases chunks.len(),
{
    if chunks.len() > 0 {
        let front = chunks.drop_last();
        assert forall|i: int| 0 <= i < front.len() implies (#[trigger] front[i]).standard_type()
            != Some(kind) by {
            assert(front[i] == chunks[i]);
        }
        lemma_body_absent(front, kind);
        assert(chunks[chunks.len() - 1].standard_type() != Some(kind));
    }
}

/// Chunks that are each in order have no first error.
proof fn lemma_no_error(chunks: Seq<Chunk>)
    requires
        forall|i: int| 0 <= i < chunks.len() ==> chunk_error(#[trigger] chunks[i]) is None,
    ensures
        first_error(chunks) is None,
    decreases chunks.len(),
{
    if chunks.len() > 0 {
        let rest = chunks.drop_first();
        assert forall|i: int| 0 <= i < rest.len() implies chunk_error(
            #[trigger] rest[i],
        ) is None by {
            assert(rest[i] == chunks[i + 1]);
        }
        lemma_no_error(rest);
    }
}

/// The types of the chunks that carry an address.
pub open spec fn ip_chunk_type(ip: IpAddr, is_src: bool) -> StandardChunk {
    match (ip, is_src) {
        (IpAddr::V4(_), true) => StandardChunk::Ipv4Src,
        (IpAddr::V4(_), false) => StandardChunk::Ipv4Dst,
        (IpAddr::V6(_), true) => StandardChunk::Ipv6Src,
        (IpAddr::V6(_), false) => StandardChunk::Ipv6Dst,
    }
}

/// The chunks of the envelope: their types, their bodies and that they are in
/// order.
proof fn lemma_envelope(p: PacketView)
    ensures
        ({
            let cs = envelope_chunks(p);
            let m = bodies(cs);
            &&& cs.len() == 10
            &&& first_error(cs) is None
            &&& m.contains_key(StandardChunk::IpFamily)
            &&& m[StandardChunk::IpFamily] == seq![family_of(p.src.ip())]
            &&& m.contains_key(StandardChunk::IpProtocolId)
            &&& m[StandardChunk::IpProtocolId] == seq![p.transport.wire_byte()]
            &&& m.contains_key(ip_chunk_type(p.src.ip(), true))
            &&& m[ip_chunk_type(p.src.ip(), true)] == p.src.ip().octets()
            &&& m.contains_key(ip_chunk_type(p.dst.ip(), false))
            &&& m[ip_chunk_type(p.dst.ip(), false)] == p.dst.ip().octets()
            &&& m.contains_key(StandardChunk::SrcPort)
            &&& m[StandardChunk::SrcPort] == be16(p.src.port())
            &&& m.contains_key(StandardChunk::DstPort)
            &&& m[StandardChunk::DstPort] == be16(p.dst.port())
            &&& m.contains_key(StandardChunk::TimestampSec)
            &&& m[StandardChunk::TimestampSec] == be32(wire_secs(p.timestamp))
            &&& m.contains_key(StandardChunk::TimestampUsec)
            &&& m[StandardChunk::TimestampUsec] == be32(wire_usecs(p.timestamp))
            &&& m.contains_key(StandardChunk::ProtocolType)
            &&& m[StandardChunk::ProtocolType] == seq![p.protocol.wire_byte()]
            &&& m.contains_key(StandardChunk::CaptureAgentId)
            &&& m[StandardChunk::CaptureAgentId] == be32(p.capture_id)
            &&& !m.contains_key(StandardChunk::AuthKey)
            &&& !m.contains_key(StandardChunk::CorrelationId)
            &&& !m.contains_key(StandardChunk::Payload)
            &&& forall|kind: StandardChunk| #[trigger]
                m.contains_key(kind) && (kind == StandardChunk::Ipv4Dst || kind
                    == StandardChunk::Ipv6Dst) ==> kind == ip_chunk_type(p.dst.ip(), false)
        }),
{
    let cs = envelope_chunks(p);
    let kinds = seq![
        StandardChunk::IpFamily,
        StandardChunk::IpProtocolId,
        ip_chunk_type(p.src.ip(), true),
        ip_chunk_type(p.dst.ip(), false),
        StandardChunk::SrcPort,
        StandardChunk::DstPort,
        StandardChunk::TimestampSec,
        StandardChunk::TimestampUsec,
        StandardChunk::ProtocolType,
        StandardChunk::CaptureAgentId,
    ];
    assert forall|i: int| 0 <= i < 10 implies (#[trigger] cs[i]).standard_type() == Some(
        kinds[i],
    ) && chunk_error(cs[i]) is None by {}
    lemma_no_error(cs);
    lemma_body_of(cs, 0);
    lemma_body_of(cs, 1);
    lemma_body_of(cs, 2);
    lemma_body_of(cs, 3);
    lemma_body_of(cs, 4);
    lemma_body_of(cs, 5);
    lemma_body_of(cs, 6);
    lemma_body_of(cs, 7);
    lemma_body_of(cs, 8);
    lemma_body_of(cs, 9);
    lemma_body_absent(cs, StandardChunk::AuthKey);
    lemma_body_absent(cs, StandardChunk::CorrelationId);
    lemma_body_absent(cs, StandardChunk::Payload);
    match p.dst.ip() {
        IpAddr::V4(_) => lemma_body_absent(cs, StandardChunk::Ipv6Dst),
        IpAddr::V6(_) => lemma_body_absent(cs, StandardChunk::Ipv4Dst),
    }
}

/// The bodies of a text that may be absent.
proof fn lemma_text(kind: StandardChunk, text: Option<Seq<char>>)
    requires
        is_text(kind),
    ensures
        first_error(text_chunk(kind, text)) is None,
        bodies(text_chunk(kind, text)) == (match text {
            Some(chars) => Map::empty().insert(kind, encode_utf8(chars)),
            None => Map::empty(),
        }),
{
    match text {
        Some(chars) => {
            encode_utf8_valid_utf8(chars);
            lemma_first_error_one(Chunk::standard(kind, encode_utf8(chars)));
            lemma_bodies_one(Chunk::standard(kind, encode_utf8(chars)));
        },
        None => {},
    }
}

/// The chunks of a packet: that they are in order, and their bodies.
proof fn lemma_packet_bodies(p: PacketView)
    ensures
        first_error(packet_chunks(p)) is None,
        ({
            let e = bodies(envelope_chunks(p));
            let m = bodies(packet_chunks(p));
            &&& forall|kind: StandardChunk|
                !is_text(kind) && kind != StandardChunk::Payload ==> (#[trigger] m.contains_key(
                    kind,
                ) <==> e.contains_key(kind)) && (e.contains_key(kind) ==> m[kind] == e[kind])
            &&& m.contains_key(StandardChunk::Payload)
            &&& m[StandardChunk::Payload] == p.payload
            &&& text_of(m, StandardChunk::AuthKey) == p.capture_password
            &&& text_of(m, StandardChunk::CorrelationId) == p.correlation_id
            &&& m.contains_key(StandardChunk::AuthKey) <==> p.capture_password is Some
            &&& m.contains_key(StandardChunk::CorrelationId) <==> p.correlation_id is Some
            &&& p.capture_password matches Some(chars) ==> m[StandardChunk::AuthKey] == encode_utf8(
                chars,
            )
            &&& p.correlation_id matches Some(chars) ==> m[StandardChunk::CorrelationId]
                == encode_utf8(chars)
        }),
{
    let envelope = envelope_chunks(p);
    let password = text_chunk(StandardChunk::AuthKey, p.capture_password);
    let correlation = text_chunk(StandardChunk::CorrelationId, p.correlation_id);
    let payload = Chunk::standard(StandardChunk::Payload, p.payload);
    lemma_envelope(p);
    lemma_text(StandardChunk::AuthKey, p.capture_password);
    lemma_text(StandardChunk::CorrelationId, p.correlation_id);
    lemma_first_error_one(payload);
    lemma_bodies_one(payload);
    lemma_first_error_concat(envelope, password);
    lemma_first_error_concat(envelope + password, correlation);
    lemma_first_error_concat(envelope + password + correlation, seq![payload]);
    lemma_bodies_concat(envelope, password);
    lemma_bodies_concat(envelope + password, correlation);
    lemma_bodies_concat(envelope + password + correlation, seq![payload]);
    if let Some(chars) = p.capture_password {
        encode_utf8_decode_utf8(chars);
    }
    if let Some(chars) = p.correlation_id {
        encode_utf8_decode_utf8(chars);
    }
}

/// Each text travels in a chunk of its own, whether or not the other one is there: the
/// password in an authentication key chunk, and the correlation ID in a correlation ID
/// chunk.
pub proof fn law_texts_travel_in_their_own_chunks(p: PacketView)
    ensures
        ({
            let m = bodies(packet_chunks(p));
            &&& m.contains_key(StandardChunk::AuthKey) <==> p.capture_password is Some
            &&& p.capture_password matches Some(chars) ==> m[StandardChunk::AuthKey] == encode_utf8(
                chars,
            )
            &&& m.contains_key(StandardChunk::CorrelationId) <==> p.correlation_id is Some
            &&& p.correlation_id matches Some(chars) ==> m[StandardChunk::CorrelationId]
                == encode_utf8(chars)
        }),
{
    lemma_packet_bodies(p);
}

/// Each text is read from a chunk of its own. If that chunk is replaced, the text becomes
/// the new one, and if it is left out, the text is absent. The other text and all other
/// fields stay as they are.
pub proof fn law_texts_are_read_from_their_own_chunks(
    m: Map<StandardChunk, Seq<u8>>,
    p: PacketView,
    text: Seq<char>,
)
    requires
        assembled(m) == Ok::<PacketView, DecodeError>(p),
    ensures
        assembled(m.insert(StandardChunk::AuthKey, encode_utf8(text))) == Ok::<
            PacketView,
            DecodeError,
        >(PacketView { capture_password: Some(text), ..p }),
        assembled(m.remove(StandardChunk::AuthKey)) == Ok::<PacketView, DecodeError>(
            PacketView { capture_password: None, ..p },
        ),
        assembled(m.insert(StandardChunk::CorrelationId, encode_utf8(text))) == Ok::<
            PacketView,
            DecodeError,
        >(PacketView { correlation_id: Some(text), ..p }),
        assembled(m.remove(StandardChunk::CorrelationId)) == Ok::<PacketView, DecodeError>(
            PacketView { correlation_id: None, ..p },
        ),
{
    encode_utf8_decode_utf8(text);
    let family = m[StandardChunk::IpFamily][0];
    lemma_first_missing_required(m);
    lemma_first_missing_addresses(m, family);
    lemma_first_missing_required(m.insert(StandardChunk::AuthKey, encode_utf8(text)));
    lemma_first_missing_addresses(m.insert(StandardChunk::AuthKey, encode_utf8(text)), family);
    lemma_first_missing_required(m.remove(StandardChunk::AuthKey));
    lemma_first_missing_addresses(m.remove(StandardChunk::AuthKey), family);
    lemma_first_missing_required(m.insert(StandardChunk::CorrelationId, encode_utf8(text)));
    lemma_first_missing_addresses(m.insert(StandardChunk::CorrelationId, encode_utf8(text)), family);
    lemma_first_missing_required(m.remove(StandardChunk::CorrelationId));
    lemma_first_missing_addresses(m.remove(StandardChunk::CorrelationId), family);
}

/// A packet says what its fields hold.
pub proof fn law_packet_says_its_fields(packet: HepPacket)
    ensures
        packet@.capture_id == packet.capture_id,
        packet@.protocol == packet.protocol,
        packet@.transport == packet.transport,
        packet@.src == packet.src,
        packet@.dst == packet.dst,
        packet@.timestamp == packet.timestamp,
        packet@.payload == packet.payload@,
        packet@.capture_password is Some <==> packet.capture_password is Some,
        packet@.correlation_id is Some <==> packet.correlation_id is Some,
        packet.capture_password matches Some(s) ==> packet@.capture_password == Some(s@),
        packet.correlation_id matches Some(s) ==> packet@.correlation_id == Some(s@),
{
}

/// A socket address is made of an IP address and a port, and gives both back.
pub proof fn law_socket_address_has_its_parts(ip: IpAddr, port: u16)
    ensures
        SocketAddr::new(ip, port).ip() == ip,
        SocketAddr::new(ip, port).port() == port,
        ip matches IpAddr::V4(a) ==> SocketAddr::new(ip, port) == (SocketAddr::V4 {
            octets: a,
            port,
        }),
        ip matches IpAddr::V6(a) ==> SocketAddr::new(ip, port) == (SocketAddr::V6 {
            octets: a,
            port,
            flowinfo: 0,
            scope_id: 0,
        }),
{
}

/// Whether source and destination of a packet share an IP family.
pub open spec fn same_family(p: PacketView) -> bool {
    family_of(p.src.ip()) == family_of(p.dst.ip())
}

/// What a collector receives of a packet: the instant as its two chunks state
/// it, and neither flow information nor scope.
pub open spec fn as_received(p: PacketView) -> PacketView {
    PacketView {
        src: SocketAddr::new(p.src.ip(), p.src.port()),
        dst: SocketAddr::new(p.dst.ip(), p.dst.port()),
        timestamp: wire_time(wire_secs(p.timestamp), wire_usecs(p.timestamp)),
        ..p
    }
}

/// A packet that fits its length field, and whose ends share an IP family, is
/// decoded from its encoding as [`as_received`] says.
pub proof fn law_decode_of_encode(p: PacketView)
    requires
        encoding(p).len() <= u16::MAX,
        same_family(p),
    ensures
        decoding(encoding(p)) == Ok::<PacketView, DecodeError>(as_received(p)),
{
    let cs = packet_chunks(p);
    let m = bodies(cs);
    law_header_is_well_formed(cs);
    law_frame_is_decoded_chunk_by_chunk(cs);
    lemma_envelope(p);
    lemma_packet_bodies(p);
    lemma_first_missing_required(m);
    lemma_first_missing_addresses(m, family_of(p.src.ip()));
    lemma_address_of_octets(p.src.ip());
    lemma_address_of_octets(p.dst.ip());
    lemma_u16_of_be16(p.src.port());
    lemma_u16_of_be16(p.dst.port());
    lemma_u32_of_be32(wire_secs(p.timestamp));
    lemma_u32_of_be32(wire_usecs(p.timestamp));
    lemma_u32_of_be32(p.capture_id);
    assert(assembled(m) is Ok);
    assert(assembled(m)->Ok_0 =~= as_received(p));
}

/// A packet that is too long for its length field is refused.
pub proof fn law_oversized_packet_is_refused(p: PacketView)
    requires
        encoding(p).len() > u16::MAX,
    ensures
        decoding(encoding(p)) == Err::<PacketView, DecodeError>(
            DecodeError::LengthMismatch {
                claimed: u16::MAX as usize,
                actual: encoding(p).len() as usize,
            },
        ),
{
    law_header_is_well_formed(packet_chunks(p));
}

/// A packet whose ends are of different IP families is refused: the family is
/// that of the source, and the destination has no address of that family.
pub proof fn law_mixed_families_are_refused(p: PacketView)
    requires
        encoding(p).len() <= u16::MAX,
        !same_family(p),
    ensures
        decoding(encoding(p)) == Err::<PacketView, DecodeError>(
            DecodeError::MissingChunk(address_chunks(family_of(p.src.ip()))[1]),
        ),
{
    let cs = packet_chunks(p);
    let m = bodies(cs);
    law_header_is_well_formed(cs);
    law_frame_is_decoded_chunk_by_chunk(cs);
    lemma_envelope(p);
    lemma_packet_bodies(p);
    lemma_first_missing_required(m);
    lemma_first_missing_addresses(m, family_of(p.src.ip()));
}

/// Whether the two timestamp chunks state an instant without loss: from the
/// epoch on, as far as 32 bits of seconds reach, in whole microseconds.
pub open spec fn whole_micros(t: Timestamp) -> bool {
    &&& !t.before_epoch
    &&& t.secs <= u32::MAX
    &&& t.nanos < NANOS_PER_SEC
    &&& t.nanos % NANOS_PER_MICRO == 0
}

/// Whether a packet comes through the wire unchanged: it fits, its ends share an
/// IP family and have neither flow information nor scope, and its instant is one
/// that the timestamp chunks can state.
pub open spec fn survives_the_wire(p: PacketView) -> bool {
    &&& encoding(p).len() <= u16::MAX
    &&& same_family(p)
    &&& p.src == SocketAddr::new(p.src.ip(), p.src.port())
    &&& p.dst == SocketAddr::new(p.dst.ip(), p.dst.port())
    &&& whole_micros(p.timestamp)
}

/// Encoding a packet and decoding the bytes gives the packet back, for each
/// packet that [`survives_the_wire`] and for no other.
pub proof fn law_round_trip(p: PacketView)
    ensures
        decoding(encoding(p)) == Ok::<PacketView, DecodeError>(p) <==> survives_the_wire(p),
{
    if encoding(p).len() > u16::MAX {
        law_oversized_packet_is_refused(p);
    } else if !same_family(p) {
        law_mixed_families_are_refused(p);
    } else {
        law_decode_of_encode(p);
        if whole_micros(p.timestamp) {
            assert(as_received(p).timestamp =~= p.timestamp);
        } else {
            assert(as_received(p).timestamp != p.timestamp);
        }
        if survives_the_wire(p) {
            assert(as_received(p) =~= p);
        }
    }
}

/// What a collector receives of a packet encodes to the same bytes again.
pub proof fn law_received_packet_encodes_alike(p: PacketView)
    requires
        p.timestamp.nanos < NANOS_PER_SEC,
    ensures
        encoding(as_received(p)) == encoding(p),
{
    let q = as_received(p);
    assert(wire_secs(q.timestamp) == wire_secs(p.timestamp));
    assert(wire_usecs(q.timestamp) == wire_usecs(p.timestamp));
    assert(envelope_chunks(q) =~= envelope_chunks(p));
}

/// Two packets that come through the wire have different encodings, unless they
/// are the same packet.
pub proof fn law_encoding_identifies_packet(p: PacketView, q: PacketView)
    requires
        survives_the_wire(p),
        survives_the_wire(q),
        encoding(p) == encoding(q),
    ensures
        p == q,
{
    law_round_trip(p);
    law_round_trip(q);
}

/// An instant before the Unix epoch travels as the epoch itself.
pub proof fn law_before_epoch_travels_as_epoch(p: PacketView)
    requires
        p.timestamp.before_epoch,
    ensures
        encoding(p) == encoding(
            PacketView {
                timestamp: Timestamp { before_epoch: false, secs: 0, nanos: 0 },
                ..p
            },
        ),
{
    let q = PacketView {
        timestamp: Timestamp { before_epoch: false, secs: 0, nanos: 0 },
        ..p
    };
    assert(envelope_chunks(q) =~= envelope_chunks(p));
}

/// The payload chunk is the last chunk on the wire.
///
/// A reader that goes through the chunks of an encoded packet finds the chunks of
/// the packet, and the payload after all others.
pub proof fn law_payload_is_last_on_the_wire(p: PacketView)
    requires
        encoding(p).len() <= u16::MAX,
    ensures
        chunks_from(encoding(p), HEADER_LEN as nat) == Ok::<Seq<Chunk>, DecodeError>(
            packet_chunks(p),
        ),
        packet_chunks(p).last() == Chunk::standard(StandardChunk::Payload, p.payload),
        forall|i: int|
            0 <= i < packet_chunks(p).len() - 1 ==> (#[trigger] packet_chunks(
                p,
            )[i]).standard_type() != Some(StandardChunk::Payload),
{
    let cs = packet_chunks(p);
    law_header_is_well_formed(cs);
    lemma_packet_bodies(p);
    lemma_chunks_from(cs, 0);
    assert(cs.skip(0) =~= cs);
    assert(cs.take(0) =~= seq![]);
    assert(chunks_bytes(seq![]) =~= seq![]);
}

/// Bytes of an address on the wire.
pub open spec fn address_len(ip: IpAddr) -> nat {
    match ip {
        IpAddr::V4(_) => 4,
        IpAddr::V6(_) => 16,
    }
}

/// Bytes of the chunk of a text that may be absent.
pub open spec fn text_len(text: Option<Seq<char>>) -> nat {
    match text {
        Some(chars) => CHUNK_HEADER_LEN as nat + encode_utf8(chars).len(),
        None => 0,
    }
}

/// The length of an encoded packet: 91 bytes for the header, the fixed chunks and
/// the header of the payload chunk, then the addresses, the texts and the payload.
pub proof fn law_encoded_length(p: PacketView)
    ensures
        encoding(p).len() == 91 + address_len(p.src.ip()) + address_len(p.dst.ip()) + text_len(
            p.capture_password,
        ) + text_len(p.correlation_id) + p.payload.len(),
{
    let envelope = envelope_chunks(p);
    let password = text_chunk(StandardChunk::AuthKey, p.capture_password);
    let correlation = text_chunk(StandardChunk::CorrelationId, p.correlation_id);
    let payload = Chunk::standard(StandardChunk::Payload, p.payload);
    lemma_chunks_bytes_concat(envelope, password);
    lemma_chunks_bytes_concat(envelope + password, correlation);
    lemma_chunks_bytes_concat(envelope + password + correlation, seq![payload]);
    lemma_chunks_bytes_one(payload);
    if let Some(chars) = p.capture_password {
        lemma_chunks_bytes_one(Chunk::standard(StandardChunk::AuthKey, encode_utf8(chars)));
    }
    if let Some(chars) = p.correlation_id {
        lemma_chunks_bytes_one(Chunk::standard(StandardChunk::CorrelationId, encode_utf8(chars)));
    }
    lemma_envelope_len(p);
}

/// The bytes of a row of chunks are as many as [`total_len`] says.
pub proof fn lemma_chunks_bytes_len(chunks: Seq<Chunk>)
    ensures
        chunks_bytes(chunks).len() == total_len(chunks),
    decreases chunks.len(),
{
    if chunks.len() > 0 {
        lemma_chunks_bytes_len(chunks.drop_last());
    }
}

/// The length of the chunks of the envelope.
proof fn lemma_envelope_len(p: PacketView)
    ensures
        chunks_bytes(envelope_chunks(p)).len() == 79 + address_len(p.src.ip()) + address_len(
            p.dst.ip(),
        ),
{
    let cs = envelope_chunks(p);
    lemma_chunks_bytes_len(cs);
    reveal_with_fuel(total_len, 11);
}

/// The wire byte of a protocol stands for that protocol, and a byte that stands
/// for a protocol is the wire byte of that protocol.
pub proof fn law_protocol_bytes(protocol: HepProtocol, byte: u8)
    ensures
        HepProtocol::of_byte(protocol.wire_byte()) == Some(protocol),
        HepProtocol::of_byte(byte) matches Some(p) ==> p.wire_byte() == byte,
{
}

/// The wire byte of a transport stands for that transport, and a byte that stands
/// for a transport is the wire byte of that transport.
pub proof fn law_transport_bytes(transport: IpProto, byte: u8)
    ensures
        IpProto::of_byte(transport.wire_byte()) == Some(transport),
        IpProto::of_byte(byte) matches Some(t) ==> t.wire_byte() == byte,
{
}

/// The ID of a standard chunk type stands for that type, and an ID that stands
/// for a type is the ID of that type.
pub proof fn law_chunk_ids(kind: StandardChunk, id: u16)
    ensures
        StandardChunk::of_id(kind.id()) == Some(kind),
        StandardChunk::of_id(id) matches Some(k) ==> k.id() == id,
{
}

/// A body that comes after another of the same type replaces it: it is neither refused
/// nor appended.
pub proof fn law_later_body_replaces(
    m: Map<StandardChunk, Seq<u8>>,
    id: u16,
    x: Seq<u8>,
    y: Seq<u8>,
)
    requires
        absorb_error(id, y) is None,
    ensures
        absorbed(absorbed(m, id, x), id, y) == absorbed(m, id, y),
{
    assert(absorbed(absorbed(m, id, x), id, y) =~= absorbed(m, id, y));
}

/// Bodies of different types can come in either order. Whether one of them is refused
/// rests on that body alone, as [`absorb_error`] says.
pub proof fn law_bodies_change_places(
    m: Map<StandardChunk, Seq<u8>>,
    j: u16,
    x: Seq<u8>,
    k: u16,
    y: Seq<u8>,
)
    requires
        j != k,
    ensures
        absorbed(absorbed(m, j, x), k, y) == absorbed(absorbed(m, k, y), j, x),
{
    assert(absorbed(absorbed(m, j, x), k, y) =~= absorbed(absorbed(m, k, y), j, x));
}

/// An integer that was written as a chunk behind any bytes is read back from the body
/// of that chunk, which starts after the chunk's header.
pub proof fn law_written_integers_are_read_back(
    out: Seq<u8>,
    kind: StandardChunk,
    read_as: StandardChunk,
    a: u8,
    b: u16,
    c: u32,
)
    ensures
        u8_in(
            read_as,
            (out + Chunk::standard(kind, seq![a]).wire_bytes()).skip(
                out.len() + CHUNK_HEADER_LEN,
            ),
        ) == Ok::<u8, DecodeError>(a),
        u16_in(
            read_as,
            (out + Chunk::standard(kind, be16(b)).wire_bytes()).skip(
                out.len() + CHUNK_HEADER_LEN,
            ),
        ) == Ok::<u16, DecodeError>(b),
        u32_in(
            read_as,
            (out + Chunk::standard(kind, be32(c)).wire_bytes()).skip(
                out.len() + CHUNK_HEADER_LEN,
            ),
        ) == Ok::<u32, DecodeError>(c),
{
    lemma_body_behind_header(out, Chunk::standard(kind, seq![a]));
    lemma_body_behind_header(out, Chunk::standard(kind, be16(b)));
    lemma_body_behind_header(out, Chunk::standard(kind, be32(c)));
    lemma_u16_of_be16(b);
    lemma_u32_of_be32(c);
}

/// The body of a chunk is what stands behind its header.
proof fn lemma_body_behind_header(out: Seq<u8>, chunk: Chunk)
    ensures
        (out + chunk.wire_bytes()).skip(out.len() + CHUNK_HEADER_LEN) == chunk.body,
{
    assert((out + chunk.wire_bytes()).skip(out.len() + CHUNK_HEADER_LEN) =~= chunk.body);
}

/// The bytes of a chunk that was read from a buffer are those that it was read from.
proof fn lemma_chunk_read_bytes(buf: Seq<u8>, at: int)
    requires
        0 <= at,
        chunk_at(buf, at) is Ok,
    ensures
        ({
            let chunk = chunk_at(buf, at)->Ok_0;
            &&& at + chunk.wire_len() <= buf.len()
            &&& chunk.wire_bytes() == buf.subrange(at, at + chunk.wire_len())
        }),
{
    let chunk = chunk_at(buf, at)->Ok_0;
    let len = u16_of(buf.subrange(at + 4, at + 6));
    assert(chunk.wire_len() == len);
    lemma_be16_of_u16(buf.subrange(at, at + 2));
    lemma_be16_of_u16(buf.subrange(at + 2, at + 4));
    lemma_be16_of_u16(buf.subrange(at + 4, at + 6));
    assert(chunk.wire_bytes() =~= buf.subrange(at, at + chunk.wire_len()));
}

/// The bytes of the chunks that were read from a buffer are the rest of the buffer.
proof fn lemma_chunks_read_bytes(buf: Seq<u8>, at: nat)
    requires
        at <= buf.len(),
        chunks_from(buf, at) is Ok,
    ensures
        chunks_bytes(chunks_from(buf, at)->Ok_0) == buf.skip(at as int),
    decreases buf.len() - at,
{
    if at < buf.len() {
        let chunk = chunk_at(buf, at as int)->Ok_0;
        let next = at + chunk.wire_len();
        lemma_chunk_read_bytes(buf, at as int);
        lemma_chunks_read_bytes(buf, next);
        lemma_chunks_bytes_concat(seq![chunk], chunks_from(buf, next)->Ok_0);
        lemma_chunks_bytes_one(chunk);
        assert(chunk.wire_bytes() + buf.skip(next as int) =~= buf.skip(at as int));
    } else {
        assert(buf.skip(at as int) =~= seq![]);
    }
}

/// Every buffer that decodes is a frame of the chunks that are read from it. So what
/// holds of frames holds of every packet that a decoder takes.
pub proof fn law_decodable_buffer_is_a_frame(buf: Seq<u8>)
    requires
        decoding(buf) is Ok,
    ensures
        buf == frame(chunks_from(buf, HEADER_LEN as nat)->Ok_0),
{
    let cs = chunks_from(buf, HEADER_LEN as nat)->Ok_0;
    lemma_chunks_read_bytes(buf, HEADER_LEN as nat);
    lemma_be16_of_u16(buf.subrange(4, 6));
    assert(frame_len(cs) == buf.len());
    assert(buf =~= buf.subrange(0, 4) + buf.subrange(4, 6) + buf.skip(6));
}

/// Bytes that a row of chunks takes up.
pub open spec fn total_len(chunks: Seq<Chunk>) -> nat
    decreases chunks.len(),
{
    if chunks.len() == 0 {
        0
    } else {
        total_len(chunks.drop_last()) + chunks.last().wire_len()
    }
}

/// Adding a chunk at the front adds its length.
pub proof fn lemma_total_len_cons(chunk: Chunk, rest: Seq<Chunk>)
    ensures
        total_len(seq![chunk] + rest) == chunk.wire_len() + total_len(rest),
    decreases rest.len(),
{
    let all = seq![chunk] + rest;
    if rest.len() == 0 {
        assert(all.drop_last() =~= seq![]);
        assert(total_len(seq![]) == 0);
    } else {
        assert(all.drop_last() =~= seq![chunk] + rest.drop_last());
        lemma_total_len_cons(chunk, rest.drop_last());
    }
}

/// Chunks that were read from a buffer fill it, and each of them is in order.
pub proof fn lemma_chunks_read(buf: Seq<u8>, at: nat)
    requires
        at <= buf.len(),
        chunks_from(buf, at) is Ok,
    ensures
        at + total_len(chunks_from(buf, at)->Ok_0) == buf.len(),
        forall|i: int|
            0 <= i < chunks_from(buf, at)->Ok_0.len() ==> chunk_error(
                #[trigger] chunks_from(buf, at)->Ok_0[i],
            ) is None,
    decreases buf.len() - at,
{
    if at < buf.len() {
        let chunk = chunk_at(buf, at as int)->Ok_0;
        let next = at + chunk.wire_len();
        lemma_chunks_read(buf, next);
        lemma_total_len_cons(chunk, chunks_from(buf, next)->Ok_0);
    }
}

/// The bodies of chunks that are in order are in order.
pub proof fn lemma_bodies_in_order(chunks: Seq<Chunk>)
    requires
        forall|i: int| 0 <= i < chunks.len() ==> chunk_error(#[trigger] chunks[i]) is None,
    ensures
        forall|kind: StandardChunk| #[trigger]
            bodies(chunks).contains_key(kind) ==> body_error(kind, bodies(chunks)[kind]) is None,
    decreases chunks.len(),
{
    if chunks.len() > 0 {
        let front = chunks.drop_last();
        assert forall|i: int| 0 <= i < front.len() implies chunk_error(
            #[trigger] front[i],
        ) is None by {
            assert(front[i] == chunks[i]);
        }
        lemma_bodies_in_order(front);
        assert(chunk_error(chunks[chunks.len() - 1]) is None);
    }
}

/// Bytes of the chunk of a type, if it has a body.
spec fn kept_one(m: Map<StandardChunk, Seq<u8>>, kind: StandardChunk) -> nat {
    if m.contains_key(kind) {
        CHUNK_HEADER_LEN as nat + m[kind].len()
    } else {
        0
    }
}

/// Bytes of the chunks of the given types, as far as they have bodies.
spec fn kept_len(m: Map<StandardChunk, Seq<u8>>, kinds: Seq<StandardChunk>) -> nat
    decreases kinds.len(),
{
    if kinds.len() == 0 {
        0
    } else {
        kept_len(m, kinds.drop_last()) + kept_one(m, kinds.last())
    }
}

/// A further body adds no more than its chunk.
proof fn lemma_kept_len_insert(
    m: Map<StandardChunk, Seq<u8>>,
    kind: StandardChunk,
    body: Seq<u8>,
    kinds: Seq<StandardChunk>,
)
    requires
        kinds.no_duplicates(),
    ensures
        kept_len(m.insert(kind, body), kinds) <= kept_len(m, kinds) + (if kinds.contains(kind) {
            CHUNK_HEADER_LEN as nat + body.len()
        } else {
            0
        }),
    decreases kinds.len(),
{
    if kinds.len() > 0 {
        let front = kinds.drop_last();
        lemma_kept_len_insert(m, kind, body, front);
        if kinds.last() == kind {
            assert(!front.contains(kind));
            assert(kinds.contains(kind));
        } else if front.contains(kind) {
            let i = choose|i: int| 0 <= i < front.len() && front[i] == kind;
            assert(kinds[i] == kind);
        }
    }
}

/// The bodies that count are no longer than the chunks that they came in.
proof fn lemma_kept_len(chunks: Seq<Chunk>, kinds: Seq<StandardChunk>)
    requires
        kinds.no_duplicates(),
    ensures
        kept_len(bodies(chunks), kinds) <= total_len(chunks),
    decreases chunks.len(),
{
    if chunks.len() == 0 {
        lemma_kept_len_empty(kinds);
    } else {
        lemma_kept_len(chunks.drop_last(), kinds);
        if let Some(kind) = chunks.last().standard_type() {
            lemma_kept_len_insert(bodies(chunks.drop_last()), kind, chunks.last().body, kinds);
        }
    }
}

/// No bodies take up no bytes.
proof fn lemma_kept_len_empty(kinds: Seq<StandardChunk>)
    ensures
        kept_len(Map::empty(), kinds) == 0,
    decreases kinds.len(),
{
    if kinds.len() > 0 {
        lemma_kept_len_empty(kinds.drop_last());
    }
}

/// The types of the chunks that a packet of the given IP family is encoded to.
spec fn encoded_types(family: u8) -> Seq<StandardChunk> {
    seq![
        StandardChunk::IpFamily,
        StandardChunk::IpProtocolId,
        address_chunks(family)[0],
        address_chunks(family)[1],
        StandardChunk::SrcPort,
        StandardChunk::DstPort,
        StandardChunk::TimestampSec,
        StandardChunk::TimestampUsec,
        StandardChunk::ProtocolType,
        StandardChunk::CaptureAgentId,
        StandardChunk::AuthKey,
        StandardChunk::CorrelationId,
        StandardChunk::Payload,
    ]
}

/// The sum over the types of an encoded packet.
proof fn lemma_kept_len_encoded(m: Map<StandardChunk, Seq<u8>>, family: u8)
    ensures
        kept_len(m, encoded_types(family)) == kept_one(m, StandardChunk::IpFamily) + kept_one(
            m,
            StandardChunk::IpProtocolId,
        ) + kept_one(m, address_chunks(family)[0]) + kept_one(m, address_chunks(family)[1])
            + kept_one(m, StandardChunk::SrcPort) + kept_one(m, StandardChunk::DstPort) + kept_one(
            m,
            StandardChunk::TimestampSec,
        ) + kept_one(m, StandardChunk::TimestampUsec) + kept_one(m, StandardChunk::ProtocolType)
            + kept_one(m, StandardChunk::CaptureAgentId) + kept_one(m, StandardChunk::AuthKey)
            + kept_one(m, StandardChunk::CorrelationId) + kept_one(m, StandardChunk::Payload),
{
    reveal_with_fuel(kept_len, 14);
}

/// What decoding makes of a packet: its ends share an IP family and have neither
/// flow information nor scope, its instant is valid and not before the epoch,
/// and its encoding is no longer than the buffer that it was decoded from.
pub proof fn law_decoded_packet(buf: Seq<u8>)
    requires
        decoding(buf) is Ok,
    ensures
        ({
            let p = decoding(buf)->Ok_0;
            &&& same_family(p)
            &&& p.src == SocketAddr::new(p.src.ip(), p.src.port())
            &&& p.dst == SocketAddr::new(p.dst.ip(), p.dst.port())
            &&& p.timestamp.valid()
            &&& !p.timestamp.before_epoch
            &&& encoding(p).len() <= buf.len() <= u16::MAX
        }),
{
    let p = decoding(buf)->Ok_0;
    let cs = chunks_from(buf, HEADER_LEN as nat)->Ok_0;
    let m = bodies(cs);
    let family = m[StandardChunk::IpFamily][0];
    let kinds = encoded_types(family);
    lemma_chunks_read(buf, HEADER_LEN as nat);
    lemma_bodies_in_order(cs);
    lemma_first_missing_required(m);
    lemma_first_missing_addresses(m, family);
    lemma_kept_len(cs, kinds);
    lemma_kept_len_encoded(m, family);
    law_encoded_length(p);
    if m.contains_key(StandardChunk::AuthKey) {
        decode_utf8_encode_utf8(m[StandardChunk::AuthKey]);
    }
    if m.contains_key(StandardChunk::CorrelationId) {
        decode_utf8_encode_utf8(m[StandardChunk::CorrelationId]);
    }
}

/// A decoded packet can be passed on: encoding it and decoding the bytes gives it
/// back, if the timestamp chunks can state its instant.
pub proof fn law_decoded_packet_can_be_passed_on(buf: Seq<u8>)
    requires
        decoding(buf) is Ok,
        whole_micros(decoding(buf)->Ok_0.timestamp),
    ensures
        decoding(encoding(decoding(buf)->Ok_0)) == decoding(buf),
{
    law_decoded_packet(buf);
    law_round_trip(decoding(buf)->Ok_0);
}

} // verus!
