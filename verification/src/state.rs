//! The states of the client state machine and their order.

use vstd::prelude::*;
use vstd::std_specs::cmp::PartialOrdSpecImpl;
use core::cmp::Ordering;

verus! {

/// The states of the client state machine.
///
/// A client starts `Disconnected`. The states before it are the ways in which
/// a connection can fail; the states after it lead to `Connected`. The order
/// of the variants is the order of the states.
#[derive(Debug, Clone, Copy, PartialEq, Eq, Structural, Ord, Hash)]
pub enum ClientState {
    /// The connect token expired before the handshake was over.
    ConnectTokenExpired,
    /// Nothing was received from the server for longer than the timeout
    /// while connected.
    ConnectionTimedOut,
    /// No server answered the connection request in time.
    ConnectionRequestTimedOut,
    /// No server answered the challenge response in time.
    ChallengeResponseTimedOut,
    /// The server refused the connection.
    ConnectionDenied,
    /// Not connected, and not trying to connect.
    Disconnected,
    /// Sending connection requests and waiting for a challenge.
    SendingConnectionRequest,
    /// Sending challenge responses and waiting for a keep-alive.
    SendingChallengeResponse,
    /// Connected to a server.
    Connected,
}

impl ClientState {
    /// The place of the state in the order of states.
    pub open spec fn rank(self) -> int {
        match self {
            ClientState::ConnectTokenExpired => 0,
            ClientState::ConnectionTimedOut => 1,
            ClientState::ConnectionRequestTimedOut => 2,
            ClientState::ChallengeResponseTimedOut => 3,
            ClientState::ConnectionDenied => 4,
            ClientState::Disconnected => 5,
            ClientState::SendingConnectionRequest => 6,
            ClientState::SendingChallengeResponse => 7,
            ClientState::Connected => 8,
        }
    }

    /// An error state: one that comes before `Disconnected`.
    pub open spec fn is_error(self) -> bool {
        self.rank() < ClientState::Disconnected.rank()
    }

    /// A pending state: one in which the handshake is under way.
    pub open spec fn is_pending(self) -> bool {
        self == ClientState::SendingConnectionRequest || self
            == ClientState::SendingChallengeResponse
    }

    /// The place of the state in the order of states.
    pub fn index(&self) -> (index: u8)
        ensures
            index == self.rank(),
    {
        match self {
            ClientState::ConnectTokenExpired => 0,
            ClientState::ConnectionTimedOut => 1,
            ClientState::ConnectionRequestTimedOut => 2,
            ClientState::ChallengeResponseTimedOut => 3,
            ClientState::ConnectionDenied => 4,
            ClientState::Disconnected => 5,
            ClientState::SendingConnectionRequest => 6,
            ClientState::SendingChallengeResponse => 7,
            ClientState::Connected => 8,
        }
    }
}

impl PartialOrd for ClientState {
    fn partial_cmp(&self, other: &Self) -> (order: Option<Ordering>) {
        let a = self.index();
        let b = other.index();
        if a < b {
            Some(Ordering::Less)
        } else if a == b {
            Some(Ordering::Equal)
        } else {
            Some(Ordering::Greater)
        }
    }
}

impl PartialOrdSpecImpl for ClientState {
    open spec fn obeys_partial_cmp_spec() -> bool {
        true
    }

    open spec fn partial_cmp_spec(&self, other: &Self) -> Option<Ordering> {
        if self.rank() < other.rank() {
            Some(Ordering::Less)
        } else if self.rank() == other.rank() {
            Some(Ordering::Equal)
        } else {
            Some(Ordering::Greater)
        }
    }
}

} // verus!
