//! Reliable ordered byte transfer over lossy datagrams, with the rendezvous
//! and hole-punching machinery around it.
//!
//! The library holds the protocol logic: the packet wire format, the
//! `SafeReadWrite` reliability state machine, the rendezvous registry, the
//! pure parts of the hole-punch handshake, and the command-line parser.
//! Socket, file and clock access stay with the caller, which feeds events
//! into the state machines and carries their decisions out.
use vstd::prelude::*;

pub mod cli;
pub mod packet;
pub mod punch;
pub mod rendezvous;
pub mod stream;

verus! {

/// Largest payload a single packet may carry: a datagram is capped at
/// 65535 bytes and the header takes three of them.
pub const MAX_BUF_LEN: usize = 0xFFFC;

/// The sequence id at which the 16-bit id space wraps back to zero.
pub const ID_WRAP: u16 = 0xFFFF;

/// Milliseconds to pause after a resend request before draining stale
/// chatter from the socket.
pub const RESEND_DELAY: u64 = 100;

/// Milliseconds of idle after which a sender that may exit on a lost peer
/// stops waiting.
pub const LOST_DELAY: u64 = 5000;

/// Milliseconds of idle after which the connection counts as broken and
/// the latest packet is retransmitted once.
pub const BROKEN_DELAY: u64 = 10000;

/// Exact length of every rendezvous datagram: the tag on the way in, the
/// zero-padded peer address on the way out.
pub const MAP_LEN: usize = 200;

/// Microseconds of pacing before the end-of-stream packet goes out.
pub const SOCKET_DELAY: u64 = 3000;

/// Microseconds of pacing before the 8-byte length header goes out.
pub const WRITE_DELAY: u64 = 3000;

/// Default UDP port of the rendezvous server.
pub const DEFAULT_PORT: u16 = 4277;

/// Default payload size per stream chunk.
pub const BITRATE: usize = 256;

/// Default per-packet pacing in microseconds.
pub const DELAY: u64 = 500;

/// Wall-clock alignment interval of the hole-punch handshake, in
/// milliseconds.
pub const PUNCH_DELAY: u64 = 500;

/// Milliseconds between two hole-punch probe datagrams.
pub const PUNCH_INC_DELAY: u64 = 50;

/// Number of hole-punch probe datagrams sent before draining.
pub const PUNCH_DEC_DELAY: u64 = 40;

/// Retransmit map size at which a sender must wait for acknowledgments
/// before writing on.
pub const MAX_IN_FLIGHT: usize = 256;

} // verus!
