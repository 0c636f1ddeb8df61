//! A WebSocket-to-TCP gateway's protocol core: an incremental scanner that
//! pulls the `Sec-WebSocket-Key` header out of an accumulating request head,
//! the derivation and layout of the 101 handshake response, and the decision
//! table of the bidirectional byte pump that runs after the handshake.  The
//! accept loop and the socket I/O around these live outside the library.

use vstd::prelude::*;

pub mod handshake;
pub mod parser;
pub mod pump;
pub mod scan;

verus! {

/// Ceiling on the bytes a session may buffer while looking for the end of
/// the request head, and the size of the scratch read buffer in the pump.
pub const NETWORK_BUFFER: usize = 8192;

/// Why a session was torn down.  A would-block condition is deliberately
/// absent: it is absorbed where it occurs and never surfaced.
#[derive(Clone, Copy, Debug, PartialEq, Eq, Structural)]
pub enum ErrorKind {
    /// The peer closed cleanly (EOF) during handshake or pump.
    TransportClosed,
    /// The bytes do not parse as a request head, or the key header is absent.
    ProtocolMalformed,
    /// Unparsed header bytes exceeded the configured ceiling.
    ResourceExceeded,
    /// A read, write or connect failure other than would-block.
    IoFailure,
}

} // verus!
