//! HEP3 (Homer Encapsulation Protocol v3) codec and transport.
//!
//! HEP3 is the wire format that Homer, HEPIC and HEPlify-Server collectors expect
//! for ingesting SIP signaling, RTCP, RTP-QoS, logs and CDRs from VoIP
//! infrastructure. This crate provides:
//!
//! * A codec ([`HepPacket::encode`] and [`HepPacket::decode`]) for the chunk-based
//!   HEP3 envelope.
//! * The [`HepSink`] trait, the integration point through which a SIP stack, an RTP
//!   engine or an application ships observability data.
//! * [`UdpHepSink`], a non-blocking sink with a bounded queue and a drop counter,
//!   and [`UdpHepWorker`], which decides what the owner of the socket does next.
//!
//! What the codec does is stated by [`encode::encoding`] and [`decode::decoding`],
//! over the [chunks](chunk) of a packet. The module [`laws`] proves what follows
//! from them, first of all that decoding undoes encoding. The module [`wire`] states the
//! format in plain numbers, for packets that come from or go to other agents.
//!
//! # Wire format
//!
//! Every packet starts with the magic `HEP3`, followed by its total length as two
//! bytes, big endian. After that comes a row of chunks: vendor, type and length of
//! the chunk, two bytes each, and the body.
//!
//! ```text
//! +--------+--------+--------+--------+
//! |   'H'  |   'E'  |   'P'  |   '3'  |
//! +--------+--------+--------+--------+
//! |  total length   |
//! +--------+--------+--------+--------+--------+--------+
//! |      vendor     |       type      |  chunk length   |  body ...
//! +--------+--------+--------+--------+--------+--------+
//! |  next chunk ...
//! ```

pub mod addr;
pub mod bytes;
pub mod chunk;
pub mod decode;
pub mod encode;
pub mod laws;
pub mod outlet;
pub mod packet;
pub mod sink;
pub mod time;
pub mod udp;
pub mod wire;
pub mod worker;

pub use addr::{IpAddr, SocketAddr};
pub use chunk::StandardChunk;
pub use decode::DecodeError;
pub use packet::{HepPacket, HepProtocol, IpProto};
pub use sink::{HepSink, HepSinkHandle};
pub use time::Timestamp;
pub use udp::{Offered, UdpHepSink, UdpHepSinkConfig, UdpHepSinkError, UdpHepWorker};
pub use worker::{WorkerAction, WorkerEvent, WorkerState};
