//! The client state machine as a mathematical object: the client's record
//! as a value, and every step of the machine as a function on it.

use vstd::prelude::*;
use crate::error::Error;
use crate::packet::{mask_allows, PacketView, DISCONNECT};
use crate::replay::ReplayView;
use crate::state::ClientState;
use crate::token::{ConnectTokenView, CHALLENGE_TOKEN_SIZE};
use crate::MAX_PACKET_SIZE;

verus! {

/// Microseconds in a second.
pub const MICROS_PER_SECOND: i64 = 1_000_000;

/// The mask of the packet kinds that a client accepts: denial, challenge,
/// keep-alive, payload and disconnect.
pub const ALLOWED_PACKETS: u8 = 0x76;

/// The client's record as a mathematical value. Times are in microseconds
/// since the client was made; a time that is `None` lies before every other.
pub struct ClientView {
    pub id: u64,
    pub state: ClientState,
    pub time: int,
    pub start_time: int,
    pub last_send_time: Option<int>,
    pub last_receive_time: Option<int>,
    pub server_addr_idx: int,
    pub sequence: u64,
    pub challenge_token_sequence: u64,
    pub challenge_token_data: Seq<u8>,
    pub token: ConnectTokenView,
    pub replay: ReplayView,
    pub should_disconnect: bool,
    pub should_disconnect_state: ClientState,
    pub send_queue: Seq<Seq<u8>>,
    pub num_disconnect_packets: nat,
    pub packet_send_rate: nat,
    /// The state changes that the machine has made, oldest first, each as
    /// the state that was left and the state that was entered. The observer
    /// is told of each, in this order, before the state changes.
    pub transitions: Seq<(ClientState, ClientState)>,
}

/// The outcome of offering one datagram to the client: the record
/// afterwards, and the payload that is handed on to the host, if any.
pub struct Received {
    pub client: ClientView,
    pub payload: Option<Seq<u8>>,
}

/// The outcome of draining a queue of datagrams: the record afterwards, and
/// the payloads that are handed on to the host, in order.
pub struct Drained {
    pub client: ClientView,
    pub payloads: Seq<Seq<u8>>,
}

impl ClientView {
    /// Whether the client is trying to connect, or connected.
    pub open spec fn is_active(self) -> bool {
        self.state.is_pending() || self.state == ClientState::Connected
    }

    /// Whether the machine has entered `Connected` at some time.
    pub open spec fn has_connected(self) -> bool {
        exists|i: int|
            0 <= i < self.transitions.len() && (#[trigger] self.transitions[i]).1
                == ClientState::Connected
    }

    /// The record is consistent: the token is valid, the address cursor
    /// points into its list, the id is zero unless the machine has been
    /// connected, a disconnect is deferred only while the client is active
    /// and leads to `Disconnected` or `ConnectionDenied`, and no recorded
    /// time lies in the future or more than a second before the start of
    /// time.
    pub open spec fn wf(self) -> bool {
        &&& self.token.wf()
        &&& self.id != 0 ==> self.has_connected()
        &&& 0 <= self.server_addr_idx < self.token.server_addresses.len()
        &&& 0 <= self.start_time <= self.time <= i64::MAX
        &&& self.challenge_token_data.len() == CHALLENGE_TOKEN_SIZE
        &&& self.should_disconnect ==> self.is_active()
        &&& self.should_disconnect_state == ClientState::Disconnected
            || self.should_disconnect_state == ClientState::ConnectionDenied
        &&& match self.last_send_time {
            Some(t) => -MICROS_PER_SECOND <= t <= self.time,
            None => true,
        }
        &&& match self.last_receive_time {
            Some(t) => 0 <= t <= self.time,
            None => true,
        }
    }

    /// The record of a fresh client for `token` and the given settings.
    pub open spec fn initial(
        token: ConnectTokenView,
        num_disconnect_packets: nat,
        packet_send_rate: nat,
    ) -> ClientView {
        ClientView {
            id: 0,
            state: ClientState::Disconnected,
            time: 0,
            start_time: 0,
            last_send_time: None,
            last_receive_time: None,
            server_addr_idx: 0,
            sequence: 0,
            challenge_token_sequence: 0,
            challenge_token_data: Seq::new(CHALLENGE_TOKEN_SIZE as nat, |i: int| 0u8),
            token,
            replay: ReplayView::empty(),
            should_disconnect: false,
            should_disconnect_state: ClientState::Disconnected,
            send_queue: Seq::empty(),
            num_disconnect_packets,
            packet_send_rate,
            transitions: Seq::empty(),
        }
    }

    /// The machine enters `state`, and the change is put on record.
    pub open spec fn with_state(self, state: ClientState) -> ClientView {
        ClientView { state, transitions: self.transitions.push((self.state, state)), ..self }
    }

    /// Time moves on by `delta` microseconds, and stops at the largest time
    /// that can be held.
    pub open spec fn advance(self, delta: u64) -> ClientView {
        ClientView {
            time: if self.time + delta > i64::MAX {
                i64::MAX as int
            } else {
                self.time + delta
            },
            ..self
        }
    }

    /// The timing of a connection attempt starts over: the attempt begins
    /// now, something counts as received now, and the last send is put a
    /// second back so that the next one is due at once. The deferred
    /// disconnect, the challenge sequence and the replay window are cleared.
    pub open spec fn reset_connection(self) -> ClientView {
        ClientView {
            start_time: self.time,
            last_send_time: Some(self.time - MICROS_PER_SECOND),
            last_receive_time: Some(self.time),
            should_disconnect: false,
            should_disconnect_state: ClientState::Disconnected,
            challenge_token_sequence: 0,
            replay: ReplayView::empty(),
            ..self
        }
    }

    /// The machine falls back to `new_state`: the connection timing starts
    /// over, and the sequence counter, the start time and the address cursor
    /// return to zero.
    pub open spec fn reset(self, new_state: ClientState) -> ClientView {
        ClientView {
            sequence: 0,
            start_time: 0,
            server_addr_idx: 0,
            ..self.with_state(new_state).reset_connection()
        }
    }

    /// A connection attempt begins against the server under the cursor.
    pub open spec fn connect(self) -> ClientView {
        self.reset_connection().with_state(ClientState::SendingConnectionRequest)
    }

    /// Whether the token lists a server behind the one under the cursor.
    pub open spec fn has_next_server(self) -> bool {
        self.server_addr_idx + 1 < self.token.server_addresses.len()
    }

    /// The cursor moves to the next server, the sequence counter returns to
    /// zero, and a connection attempt begins there.
    pub open spec fn connect_to_next_server(self) -> ClientView {
        ClientView { server_addr_idx: self.server_addr_idx + 1, sequence: 0, ..self }.connect()
    }

    /// Failover: the next server is tried if there is one; if there is none
    /// the machine falls back to `fallback`.
    pub open spec fn fail_over_or(self, fallback: ClientState) -> ClientView {
        if self.has_next_server() {
            self.connect_to_next_server()
        } else {
            self.reset(fallback)
        }
    }

    /// The handshake has taken as long as the token's lifetime.
    pub open spec fn is_token_expired(self) -> bool {
        self.time - self.start_time >= (self.token.expire_timestamp
            - self.token.create_timestamp) * MICROS_PER_SECOND
    }

    /// The token sets a timeout, and nothing was received for longer.
    pub open spec fn is_connection_timed_out(self) -> bool {
        self.token.timeout_seconds > 0 && match self.last_receive_time {
            Some(t) => t + self.token.timeout_seconds * MICROS_PER_SECOND < self.time,
            None => true,
        }
    }

    /// The transitions that time and deferred requests bring about: token
    /// expiry during the handshake first, then a deferred disconnect, then
    /// the idle timeout of the current state.
    pub open spec fn update_state(self) -> ClientView {
        if self.state.is_pending() && self.is_token_expired() {
            self.reset(ClientState::ConnectTokenExpired)
        } else if self.should_disconnect {
            self.fail_over_or(self.should_disconnect_state)
        } else if !self.is_connection_timed_out() {
            self
        } else if self.state == ClientState::SendingConnectionRequest {
            self.fail_over_or(ClientState::ConnectionRequestTimedOut)
        } else if self.state == ClientState::SendingChallengeResponse {
            self.fail_over_or(ClientState::ChallengeResponseTimedOut)
        } else if self.state == ClientState::Connected {
            self.reset(ClientState::ConnectionTimedOut)
        } else {
            self
        }
    }

    /// The record once something was received now.
    pub open spec fn received_now(self) -> ClientView {
        ClientView { last_receive_time: Some(self.time), ..self }
    }

    /// What a decoded packet does to the machine. Only the combinations of
    /// packet and state named here do anything; only a payload that arrives
    /// while connected is handed on.
    pub open spec fn process_packet(self, packet: PacketView) -> Received {
        let pending = self.state.is_pending();
        let connected = self.state == ClientState::Connected;
        match packet {
            PacketView::Denied { reason } if pending => Received {
                client: ClientView {
                    should_disconnect: true,
                    should_disconnect_state: ClientState::ConnectionDenied,
                    ..self.received_now()
                },
                payload: None,
            },
            PacketView::Challenge { sequence, token } if self.state
                == ClientState::SendingConnectionRequest => Received {
                client: ClientView {
                    challenge_token_sequence: sequence,
                    challenge_token_data: token,
                    ..self
                }.with_state(ClientState::SendingChallengeResponse).received_now(),
                payload: None,
            },
            PacketView::KeepAlive { client_id, max_clients } if connected => Received {
                client: self.received_now(),
                payload: None,
            },
            PacketView::KeepAlive { client_id, max_clients } if self.state
                == ClientState::SendingChallengeResponse => Received {
                client: ClientView {
                    id: client_id,
                    ..self.with_state(ClientState::Connected)
                }.received_now(),
                payload: None,
            },
            PacketView::Payload { buf } if connected => Received {
                client: self.received_now(),
                payload: Some(buf),
            },
            PacketView::Disconnect if connected => Received {
                client: ClientView {
                    should_disconnect: true,
                    should_disconnect_state: ClientState::Disconnected,
                    ..self.received_now()
                },
                payload: None,
            },
            _ => Received { client: self, payload: None },
        }
    }

    /// What a datagram that arrives at `now` (seconds since the epoch) does
    /// to the machine. A datagram of at most one byte, or one that does not
    /// decode under the key from server to client, the replay window and the
    /// client's mask, changes nothing.
    pub open spec fn recv_packet(self, datagram: Seq<u8>, now: u64) -> Received {
        if datagram.len() <= 1 {
            Received { client: self, payload: None }
        } else {
            match PacketView::decode(
                datagram,
                self.token.protocol_id,
                now,
                self.token.server_to_client_key,
                self.replay,
                ALLOWED_PACKETS,
            ) {
                Ok((packet, window)) => ClientView { replay: window, ..self }.process_packet(
                    packet,
                ),
                Err(_) => Received { client: self, payload: None },
            }
        }
    }

    /// What a queue of datagrams does to the machine, taken in order.
    pub open spec fn recv_packets(self, inbound: Seq<Seq<u8>>, now: u64) -> Drained
        decreases inbound.len(),
    {
        if inbound.len() == 0 {
            Drained { client: self, payloads: Seq::empty() }
        } else {
            let before = self.recv_packets(inbound.drop_last(), now);
            let last = before.client.recv_packet(inbound.last(), now);
            Drained {
                client: last.client,
                payloads: match last.payload {
                    Some(payload) => before.payloads.push(payload),
                    None => before.payloads,
                },
            }
        }
    }

    /// Whether more than the send rate has passed since the last send, so
    /// that a periodic packet may go out.
    pub open spec fn rate_elapsed(self) -> bool {
        match self.last_send_time {
            Some(t) => t + self.packet_send_rate < self.time,
            None => true,
        }
    }

    /// The packet that the current state sends periodically, if it sends any.
    pub open spec fn periodic_packet(self) -> Option<PacketView> {
        match self.state {
            ClientState::SendingConnectionRequest => Some(
                PacketView::Request {
                    protocol_id: self.token.protocol_id,
                    expire_timestamp: self.token.expire_timestamp,
                    nonce: self.token.nonce,
                    private_data: self.token.private_data,
                },
            ),
            ClientState::SendingChallengeResponse => Some(
                PacketView::Response {
                    sequence: self.challenge_token_sequence,
                    token: self.challenge_token_data,
                },
            ),
            ClientState::Connected => Some(PacketView::KeepAlive { client_id: 0, max_clients: 0 }),
            _ => None,
        }
    }

    /// The datagram that `packet` is sent as: numbered with the current
    /// sequence number and sealed under the key from client to server.
    pub open spec fn outbound(self, packet: PacketView) -> Seq<u8> {
        packet.encode(self.sequence, self.token.client_to_server_key, self.token.protocol_id)
    }

    /// The record once a packet was sent now: the send time is the current
    /// time and the sequence number has moved on by one.
    pub open spec fn sent_now(self) -> ClientView {
        ClientView {
            last_send_time: Some(self.time),
            sequence: (self.sequence + 1) as u64,
            ..self
        }
    }

    /// Why `packet` cannot be sent, if it cannot: a payload is too large, or
    /// every sequence number has been used.
    pub open spec fn send_error(self, packet: PacketView) -> Option<Error> {
        if !packet.wf() {
            Some(Error::SizeMismatch(MAX_PACKET_SIZE, packet->Payload_buf.len() as usize))
        } else if self.sequence == u64::MAX {
            Some(Error::SequenceExhausted)
        } else {
            None
        }
    }

    /// A protocol packet is put on the send queue.
    pub open spec fn send_netcode_packet(self, packet: PacketView) -> ClientView {
        ClientView { send_queue: self.send_queue.push(self.outbound(packet)), ..self.sent_now() }
    }

    /// Whether a periodic packet is due: the send rate has elapsed and the
    /// state has one to send.
    pub open spec fn periodic_due(self) -> bool {
        self.rate_elapsed() && self.periodic_packet() is Some
    }

    /// The periodic send: the packet of the current state goes on the send
    /// queue if one is due and a sequence number is left for it.
    pub open spec fn send_packets(self) -> ClientView {
        if self.periodic_due() && self.sequence < u64::MAX {
            self.send_netcode_packet(self.periodic_packet()->0)
        } else {
            self
        }
    }

    /// Whether a tick fails: after the inbound datagrams were taken in, a
    /// periodic packet is due and no sequence number is left for it.
    pub open spec fn tick_fails(self, delta: u64, inbound: Seq<Seq<u8>>, now: u64) -> bool {
        let drained = self.advance(delta).recv_packets(inbound, now);
        drained.client.periodic_due() && drained.client.sequence == u64::MAX
    }

    /// One tick: time moves on, the inbound datagrams are taken in, the
    /// periodic packet is sent if it is due, and then the transitions that
    /// time brings about are made. A tick that fails stops after the inbound
    /// datagrams.
    pub open spec fn tick(self, delta: u64, inbound: Seq<Seq<u8>>, now: u64) -> Drained {
        let drained = self.advance(delta).recv_packets(inbound, now);
        if self.tick_fails(delta, inbound, now) {
            drained
        } else {
            Drained {
                client: drained.client.send_packets().update_state(),
                payloads: drained.payloads,
            }
        }
    }

    /// The disconnect packets that `disconnect` queues when `count` sequence
    /// numbers are left for them.
    pub open spec fn disconnect_packets(self, count: nat) -> Seq<Seq<u8>> {
        Seq::new(
            count,
            |i: int|
                PacketView::Disconnect.encode(
                    (self.sequence + i) as u64,
                    self.token.client_to_server_key,
                    self.token.protocol_id,
                ),
        )
    }

    /// The record after `count` disconnect packets were queued.
    pub open spec fn queue_disconnects(self, count: nat) -> ClientView {
        ClientView {
            send_queue: self.send_queue + self.disconnect_packets(count),
            last_send_time: if count > 0 {
                Some(self.time)
            } else {
                self.last_send_time
            },
            sequence: (self.sequence + count) as u64,
            ..self
        }
    }
}

/// What is on record stays on record when the machine enters a state, and
/// entering `Connected` puts it on record.
pub proof fn lemma_with_state_records(client: ClientView, state: ClientState)
    ensures
        client.has_connected() ==> client.with_state(state).has_connected(),
        state == ClientState::Connected ==> client.with_state(state).has_connected(),
{
    let after = client.with_state(state);
    if client.has_connected() {
        let i = choose|i: int|
            0 <= i < client.transitions.len() && (#[trigger] client.transitions[i]).1
                == ClientState::Connected;
        assert(after.transitions[i] == client.transitions[i]);
    }
    if state == ClientState::Connected {
        assert(after.transitions[client.transitions.len() as int].1 == ClientState::Connected);
    }
}

/// A well-formed packet keeps a consistent record consistent.
pub proof fn lemma_process_packet_keeps_wf(client: ClientView, packet: PacketView)
    requires
        client.wf(),
        packet.wf(),
    ensures
        client.process_packet(packet).client.wf(),
{
    lemma_with_state_records(client, ClientState::Connected);
    match packet {
        PacketView::Challenge { sequence, token } => {
            lemma_with_state_records(
                ClientView {
                    challenge_token_sequence: sequence,
                    challenge_token_data: token,
                    ..client
                },
                ClientState::SendingChallengeResponse,
            );
        },
        _ => {},
    }
}

/// Falling back to a state that is not active keeps a consistent record
/// consistent.
pub proof fn lemma_reset_keeps_wf(client: ClientView, new_state: ClientState)
    requires
        client.wf(),
    ensures
        client.reset(new_state).wf(),
{
    lemma_with_state_records(client, new_state);
}

/// Beginning a connection attempt keeps a consistent record consistent.
pub proof fn lemma_connect_keeps_wf(client: ClientView)
    requires
        client.wf(),
    ensures
        client.connect().wf(),
{
    lemma_with_state_records(client.reset_connection(), ClientState::SendingConnectionRequest);
}

/// The transitions that time brings about keep a consistent record
/// consistent.
pub proof fn lemma_update_state_keeps_wf(client: ClientView)
    requires
        client.wf(),
    ensures
        client.update_state().wf(),
{
    lemma_reset_keeps_wf(client, ClientState::ConnectTokenExpired);
    lemma_reset_keeps_wf(client, client.should_disconnect_state);
    lemma_reset_keeps_wf(client, ClientState::ConnectionRequestTimedOut);
    lemma_reset_keeps_wf(client, ClientState::ChallengeResponseTimedOut);
    lemma_reset_keeps_wf(client, ClientState::ConnectionTimedOut);
    if client.has_next_server() {
        lemma_connect_keeps_wf(
            ClientView { server_addr_idx: client.server_addr_idx + 1, sequence: 0, ..client },
        );
    }
}

/// The client's mask holds exactly the kinds that a server sends.
pub proof fn lemma_allowed_packets(kind: u8)
    requires
        kind <= DISCONNECT,
    ensures
        mask_allows(ALLOWED_PACKETS, kind) <==> (kind == crate::packet::DENIED || kind
            == crate::packet::CHALLENGE || kind == crate::packet::KEEP_ALIVE || kind
            == crate::packet::PAYLOAD || kind == DISCONNECT),
{
    assert(kind <= 6 ==> (0x76u8 & (1u8 << kind) != 0 <==> (kind == 1 || kind == 2 || kind == 4
        || kind == 5 || kind == 6))) by (bit_vector);
}

} // verus!
