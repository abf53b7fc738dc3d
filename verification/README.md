# hep-rs

A HEP3 (Homer Encapsulation Protocol v3) codec and non-blocking UDP sink, with
contracts that Verus proves.

- `src/packet.rs`, `src/addr.rs`, `src/time.rs`: the packet and what it is made of.
- `src/chunk.rs`, `src/bytes.rs`: the wire format, as a header and a row of chunks.
- `src/encode.rs`, `src/decode.rs`: `HepPacket::encode` and `HepPacket::decode`.
  `encoding` and `decoding` say what they compute; `decode` reports the first thing
  that is wrong with a buffer, and says which.
- `src/laws.rs`: what holds of the codec as a whole. Decoding undoes encoding for
  exactly the packets that fit the two-byte length field, whose ends share an IP family
  and have neither flow information nor scope, and whose instant is in whole
  microseconds and within 32 bits of seconds.
  Unknown chunks are skipped, the last chunk of a type counts, and the payload comes
  last on the wire.
- `src/sink.rs`, `src/udp.rs`: the `HepSink` trait and `UdpHepSink`. A producer never
  waits: a packet is queued, or dropped and counted.
- `src/worker.rs`: what the worker behind a sink does about each event, and the laws
  of a whole run: every packet is transmitted as its encoding, warnings are at least
  the throttle apart, and a shutdown flushes the backlog.
- `app/`: sockets, clocks, logs and error messages around the library.

The queue and the wake-up of the worker are tokio's. What is relied on of them is
stated at the top of `src/udp.rs`.
