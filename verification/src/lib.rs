//! Client half of a secure, connection-oriented datagram protocol layered on
//! an unreliable transport: connect-token parsing, the sealed packet codec,
//! replay protection and the time-driven client state machine.

pub mod client;
pub mod config;
pub mod crypto;
pub mod error;
pub mod laws;
pub mod link;
pub mod machine;
pub mod packet;
pub mod replay;
pub mod state;
pub mod token;
pub mod wire;

use vstd::prelude::*;

verus! {

/// Largest payload, in bytes, that a payload packet may carry.
pub const MAX_PACKET_SIZE: usize = 1200;

/// Largest size, in bytes, of a serialized packet: prefix, sequence, body and
/// authentication tag.
pub const MAX_PKT_BUF_SIZE: usize = 1300;

/// Exact length, in bytes, of a connect token blob.
pub const CONNECT_TOKEN_SIZE: usize = 2048;

/// Number of sequence numbers covered by the replay window.
pub const REPLAY_WINDOW_SIZE: usize = 256;

/// Default minimum spacing of periodic packets, in microseconds (a tenth of a
/// second).
pub const PACKET_SEND_RATE_MICROS: u64 = 100_000;

/// Length, in bytes, of the authentication tag that closes a sealed packet.
pub const MAC_SIZE: usize = 16;

/// Length, in bytes, of a sealing key.
pub const KEY_SIZE: usize = 32;

/// Largest number of server addresses that a connect token may list.
pub const MAX_SERVERS_PER_CONNECT: usize = 32;

} // verus!
