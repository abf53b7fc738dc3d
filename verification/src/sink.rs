//! Where packets go.

use std::sync::Arc;
use vstd::prelude::*;

use crate::packet::HepPacket;

verus! {

/// Where HEP-emitting libraries ship packets. Implementations must be
/// non-blocking: a slow or unreachable collector must not block the audio or
/// signaling path.
///
/// The convention is `Option<HepSinkHandle>`: `None` means that HEP is disabled
/// at this site, at no cost, and `Some` means "fire and forget".
pub trait HepSink: Send + Sync {
    /// Enqueue a packet for shipping. Returns immediately. Drops silently when
    /// the underlying queue is full: the sink's job is to surface drops via
    /// metrics, not to back-pressure the caller.
    fn send(&self, packet: HepPacket);
}

/// A sink that is shared between the sites that ship packets.
pub type HepSinkHandle = Arc<dyn HepSink>;

} // verus!
