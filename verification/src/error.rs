//! The errors that the codec and the client report.

use vstd::prelude::*;

verus! {

/// Why a connect token was refused.
#[derive(Debug, Clone, Copy, PartialEq, Eq, Structural)]
pub enum TokenError {
    /// The token lists no server address, or more than the protocol allows.
    AddressCount(u32),
    /// A server address carries a kind tag that is neither IPv4 nor IPv6.
    AddressKind(u8),
    /// The token's expiry timestamp has been reached.
    Expired,
}

/// The ways in which an operation of this library can fail.
#[derive(Debug, Clone, Copy, PartialEq, Eq, Structural)]
pub enum Error {
    /// A buffer has the wrong length: `(expected, actual)`.
    SizeMismatch(usize, usize),
    /// The kind tag in a packet's prefix byte names no packet kind.
    UnknownPacketType(u8),
    /// The packet's kind is not accepted by the receiver's mask.
    DisallowedPacketType(u8),
    /// A packet failed to seal, or failed to open under the given key.
    Crypto,
    /// The packet's sequence number was refused by the replay window:
    /// `(sequence, highest accepted sequence)`.
    Replay(u64, u64),
    /// The connect token is not valid.
    InvalidToken(TokenError),
    /// Every outbound sequence number has been used.
    SequenceExhausted,
}

} // verus!
