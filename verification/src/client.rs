//! The client: a connect token, the state machine and the queue of protocol
//! packets that wait to be sent.

use vstd::prelude::*;
use crate::config::{
    lemma_observed_nothing, lemma_observed_one, lemma_observed_then, observed, ClientConfig,
    NoHandler, StateChangeHandler,
};
use crate::error::Error;
use crate::link::{datagrams, LinkReceiver, LinkSender};
use crate::machine::{
    lemma_with_state_records, ClientView, ALLOWED_PACKETS, MICROS_PER_SECOND,
};
use crate::packet::{
    DisconnectPacket, KeepAlivePacket, Packet, PacketView, PayloadPacket, RequestPacket,
    ResponsePacket,
};
use crate::replay::{ReplayProtection, ReplayView};
use crate::state::ClientState;
use crate::token::{ConnectToken, ConnectTokenView, ServerAddr, CHALLENGE_TOKEN_SIZE};
use crate::MAX_PACKET_SIZE;

verus! {

/// A time in microseconds as a mathematical value; `None` lies before every
/// other time.
pub open spec fn instant(time: Option<i64>) -> Option<int> {
    match time {
        Some(t) => Some(t as int),
        None => None,
    }
}

/// The content of a payload that may be there.
pub open spec fn payload_view(payload: Option<Vec<u8>>) -> Option<Seq<u8>> {
    match payload {
        Some(buf) => Some(buf@),
        None => None,
    }
}

/// The client of the protocol.
///
/// It is made from a connect token, told to connect, and then ticked at a
/// regular rate with the time that has passed and the datagrams that have
/// arrived. What it wants to send it puts on a queue of its own, which the
/// host drains into the transport.
pub struct Client<Ctx, H> {
    id: u64,
    state: ClientState,
    time: i64,
    start_time: i64,
    last_send_time: Option<i64>,
    last_receive_time: Option<i64>,
    server_addr_idx: usize,
    sequence: u64,
    challenge_token_sequence: u64,
    challenge_token_data: [u8; CHALLENGE_TOKEN_SIZE],
    token: ConnectToken,
    replay_protection: ReplayProtection,
    should_disconnect: bool,
    should_disconnect_state: ClientState,
    send_queue: Vec<Vec<u8>>,
    cfg: ClientConfig<Ctx, H>,
    notified: Ghost<Seq<(ClientState, ClientState)>>,
}

impl<Ctx, H> View for Client<Ctx, H> {
    type V = ClientView;

    closed spec fn view(&self) -> ClientView {
        ClientView {
            id: self.id,
            state: self.state,
            time: self.time as int,
            start_time: self.start_time as int,
            last_send_time: instant(self.last_send_time),
            last_receive_time: instant(self.last_receive_time),
            server_addr_idx: self.server_addr_idx as int,
            sequence: self.sequence,
            challenge_token_sequence: self.challenge_token_sequence,
            challenge_token_data: self.challenge_token_data@,
            token: self.token@,
            replay: self.replay_protection@,
            should_disconnect: self.should_disconnect,
            should_disconnect_state: self.should_disconnect_state,
            send_queue: datagrams(self.send_queue@),
            num_disconnect_packets: self.cfg.spec_num_disconnect_packets() as nat,
            packet_send_rate: self.cfg.spec_packet_send_rate() as nat,
            transitions: self.notified@,
        }
    }
}

impl<Ctx, H> Client<Ctx, H> {
    /// The client's record is consistent, and so is its replay window.
    pub closed spec fn wf(&self) -> bool {
        &&& self@.wf()
        &&& self.token.wf()
        &&& self.replay_protection.wf()
    }

    /// The observer that is installed, if any.
    pub closed spec fn handler(&self) -> Option<H> {
        self.cfg.spec_handler()
    }

    /// The context that is handed to the observer.
    pub closed spec fn context(&self) -> Ctx {
        self.cfg.spec_context()
    }

    /// The record of a consistent client is consistent.
    pub proof fn lemma_view_is_consistent(&self)
        requires
            self.wf(),
        ensures
            self@.wf(),
    {
    }

    /// Parses the token and makes the record of a client that has done
    /// nothing yet.
    fn from_token(token_bytes: &[u8], cfg: ClientConfig<Ctx, H>) -> (made: Result<Self, Error>)
        ensures
            match made {
                Ok(client) => {
                    &&& client.wf()
                    &&& ConnectTokenView::parse(token_bytes@) == Ok::<ConnectTokenView, Error>(
                        client@.token,
                    )
                    &&& client@ == ClientView::initial(
                        client@.token,
                        cfg.spec_num_disconnect_packets() as nat,
                        cfg.spec_packet_send_rate() as nat,
                    )
                    &&& client.handler() == cfg.spec_handler()
                    &&& client.context() == cfg.spec_context()
                },
                Err(e) => ConnectTokenView::parse(token_bytes@) == Err::<ConnectTokenView, Error>(
                    e,
                ),
            },
    {
        let token = match ConnectToken::read_from(token_bytes) {
            Ok(token) => token,
            Err(e) => {
                return Err(e);
            },
        };
        let client = Client {
            id: 0,
            state: ClientState::Disconnected,
            time: 0,
            start_time: 0,
            last_send_time: None,
            last_receive_time: None,
            server_addr_idx: 0,
            sequence: 0,
            challenge_token_sequence: 0,
            challenge_token_data: [0u8;CHALLENGE_TOKEN_SIZE],
            token,
            replay_protection: ReplayProtection::new(),
            should_disconnect: false,
            should_disconnect_state: ClientState::Disconnected,
            send_queue: Vec::new(),
            cfg,
            notified: Ghost(Seq::empty()),
        };
        proof {
            let first = ClientView::initial(
                client@.token,
                cfg.spec_num_disconnect_packets() as nat,
                cfg.spec_packet_send_rate() as nat,
            );
            assert(client@.challenge_token_data =~= first.challenge_token_data);
            assert(client@.send_queue =~= first.send_queue);
        }
        Ok(client)
    }

    /// Makes a client from a token blob and a configuration. Fails exactly
    /// when the blob does not parse, with the parser's error: a size mismatch
    /// or an invalid token. The client starts `Disconnected`.
    pub fn with_config(token_bytes: &[u8], cfg: ClientConfig<Ctx, H>) -> (made: Result<
        Self,
        Error,
    >)
        ensures
            match made {
                Ok(client) => {
                    &&& client.wf()
                    &&& ConnectTokenView::parse(token_bytes@) == Ok::<ConnectTokenView, Error>(
                        client@.token,
                    )
                    &&& client@ == ClientView::initial(
                        client@.token,
                        cfg.spec_num_disconnect_packets() as nat,
                        cfg.spec_packet_send_rate() as nat,
                    )
                    &&& client.handler() == cfg.spec_handler()
                    &&& client.context() == cfg.spec_context()
                },
                Err(e) => ConnectTokenView::parse(token_bytes@) == Err::<ConnectTokenView, Error>(
                    e,
                ),
            },
    {
        Client::from_token(token_bytes, cfg)
    }

    /// The id that the server gave the client; 0 until it is connected.
    pub fn id(&self) -> (id: u64)
        requires
            self.wf(),
        ensures
            id == self@.id,
            !self@.has_connected() ==> id == 0,
    {
        self.id
    }

    /// The current state.
    pub fn state(&self) -> (state: ClientState)
        ensures
            state == self@.state,
    {
        self.state
    }

    /// Whether the client is in an error state: one before `Disconnected` in
    /// the order of states.
    pub fn is_error(&self) -> (error: bool)
        ensures
            error == self@.state.is_error(),
            error <==> self@.state.rank() < ClientState::Disconnected.rank(),
    {
        self.state < ClientState::Disconnected
    }

    /// Whether the handshake is under way.
    pub fn is_pending(&self) -> (pending: bool)
        ensures
            pending == self@.state.is_pending(),
    {
        self.state == ClientState::SendingConnectionRequest || self.state
            == ClientState::SendingChallengeResponse
    }

    /// Whether the client is connected to a server.
    pub fn is_connected(&self) -> (connected: bool)
        ensures
            connected <==> self@.state == ClientState::Connected,
    {
        self.state == ClientState::Connected
    }

    /// Whether the client is disconnected, and not by an error.
    pub fn is_disconnected(&self) -> (disconnected: bool)
        ensures
            disconnected <==> self@.state == ClientState::Disconnected,
    {
        self.state == ClientState::Disconnected
    }

    /// The address of the server under the cursor.
    pub fn server_addr(&self) -> (addr: ServerAddr)
        requires
            self.wf(),
        ensures
            addr@ == self@.token.server_addresses[self@.server_addr_idx],
    {
        self.token.server_addresses[self.server_addr_idx]
    }
}

impl Client<(), NoHandler> {
    /// Makes a client with the default configuration from a token blob.
    /// Fails exactly when the blob does not parse, with the parser's error:
    /// a size mismatch or an invalid token. The client starts `Disconnected`.
    pub fn new(token_bytes: &[u8]) -> (made: Result<Self, Error>)
        ensures
            match made {
                Ok(client) => {
                    &&& client.wf()
                    &&& ConnectTokenView::parse(token_bytes@) == Ok::<ConnectTokenView, Error>(
                        client@.token,
                    )
                    &&& client@ == ClientView::initial(
                        client@.token,
                        10,
                        crate::PACKET_SEND_RATE_MICROS as nat,
                    )
                    &&& client.handler() is None
                },
                Err(e) => ConnectTokenView::parse(token_bytes@) == Err::<ConnectTokenView, Error>(
                    e,
                ),
            },
    {
        Client::from_token(token_bytes, ClientConfig::new())
    }
}

impl<Ctx, H: StateChangeHandler<Ctx>> Client<Ctx, H> {
    /// Whether the observer has been told of every state change that has
    /// come onto the record since the client was `before`, and of nothing
    /// else: of each change once, in the order of the record, with the state
    /// that was left and the state that was entered, and with the context as
    /// the call before left it. Without an observer the context is as it
    /// was.
    pub open spec fn told_since(&self, before: &Self) -> bool {
        observed(
            before.handler(),
            before.context(),
            before@.transitions,
            self.handler(),
            self.context(),
            self@.transitions,
        )
    }

    /// A client that has done nothing since has told its observer nothing.
    pub proof fn lemma_told_nothing(&self)
        ensures
            self.told_since(self),
    {
        lemma_observed_nothing(self.handler(), self.context(), self@.transitions);
    }

    /// What the observer was told up to one point and from there on, it was
    /// told from the first point on.
    pub proof fn lemma_told_then(&self, before: &Self, between: &Self)
        requires
            between.told_since(before),
            self.told_since(between),
        ensures
            self.told_since(before),
    {
        lemma_observed_then(
            before.handler(),
            before.context(),
            before@.transitions,
            between.handler(),
            between.context(),
            between@.transitions,
            self.handler(),
            self.context(),
            self@.transitions,
        );
    }

    /// Tells the observer, if there is one, of the change from the current
    /// state to `state`, with the configuration's context, puts the change
    /// on record, and then changes the state. The observer is told even
    /// where the two states are the same.
    fn set_state(&mut self, state: ClientState)
        requires
            old(self).wf(),
            old(self)@.should_disconnect ==> state.is_pending() || state == ClientState::Connected,
        ensures
            final(self).wf(),
            final(self).told_since(old(self)),
            final(self)@ == old(self)@.with_state(state),
    {
        proof {
            lemma_with_state_records(self@, state);
        }
        self.cfg.notify(self.state, state);
        proof {
            lemma_observed_one(
                old(self).handler(),
                old(self).context(),
                old(self)@.transitions,
                self.state,
                state,
                self.handler(),
                self.context(),
            );
        }
        self.notified = Ghost(self.notified@.push((self.state, state)));
        self.state = state;
    }

    /// Starts the timing of a connection attempt over and clears the
    /// deferred disconnect, the challenge sequence and the replay window.
    fn reset_connection(&mut self)
        requires
            old(self).wf(),
        ensures
            final(self).wf(),
            final(self).told_since(old(self)),
            final(self)@ == old(self)@.reset_connection(),
    {
        proof {
            self.lemma_told_nothing();
        }
        self.start_time = self.time;
        self.last_send_time = Some(self.time - MICROS_PER_SECOND);
        self.last_receive_time = Some(self.time);
        self.should_disconnect = false;
        self.should_disconnect_state = ClientState::Disconnected;
        self.challenge_token_sequence = 0;
        self.replay_protection = ReplayProtection::new();
    }

    /// Falls back to `new_state`: the connection timing starts over, and the
    /// sequence counter, the start time and the address cursor return to
    /// zero.
    fn reset(&mut self, new_state: ClientState)
        requires
            old(self).wf(),
        ensures
            final(self).wf(),
            final(self).told_since(old(self)),
            final(self)@ == old(self)@.reset(new_state),
    {
        self.sequence = 0;
        self.server_addr_idx = 0;
        self.should_disconnect = false;
        self.set_state(new_state);
        let ghost entered = *self;
        self.reset_connection();
        proof {
            self.lemma_told_then(old(self), &entered);
        }
        self.start_time = 0;
    }

    /// Readies the client to connect to the server under the address cursor:
    /// the connection timing starts over, the replay window is cleared, the
    /// observer is told of the change and the state becomes
    /// `SendingConnectionRequest`. Nothing is sent before the next tick.
    pub fn connect(&mut self)
        requires
            old(self).wf(),
        ensures
            final(self).wf(),
            final(self).told_since(old(self)),
            final(self)@ == old(self)@.connect(),
    {
        self.reset_connection();
        let ghost cleared = *self;
        self.set_state(ClientState::SendingConnectionRequest);
        proof {
            self.lemma_told_then(old(self), &cleared);
        }
    }

    /// Failover: moves on to the next server of the token, if there is one,
    /// and says whether there was.
    fn connect_to_next_server(&mut self) -> (moved: bool)
        requires
            old(self).wf(),
        ensures
            final(self).wf(),
            final(self).told_since(old(self)),
            moved == old(self)@.has_next_server(),
            moved ==> final(self)@ == old(self)@.connect_to_next_server(),
            !moved ==> final(self)@ == old(self)@,
    {
        proof {
            self.lemma_told_nothing();
        }
        if self.server_addr_idx + 1 >= self.token.server_addresses.len() {
            return false;
        }
        self.server_addr_idx += 1;
        self.sequence = 0;
        self.connect();
        true
    }

    /// Seals `packet` with the current sequence number, or says why it
    /// cannot be sent.
    fn seal(&self, packet: &Packet) -> (out: Result<Vec<u8>, Error>)
        requires
            self.wf(),
        ensures
            match out {
                Ok(bytes) => self@.send_error(packet@) is None && bytes@ == self@.outbound(
                    packet@,
                ),
                Err(e) => self@.send_error(packet@) == Some(e),
            },
    {
        let bytes = match packet.write(
            self.sequence,
            &self.token.client_to_server_key,
            self.token.protocol_id,
        ) {
            Ok(bytes) => bytes,
            Err(e) => {
                return Err(e);
            },
        };
        if self.sequence == u64::MAX {
            return Err(Error::SequenceExhausted);
        }
        Ok(bytes)
    }

    /// Sends a packet straight to the transport: seals it with the current
    /// sequence number, pushes it to the sender, records the send and moves
    /// the sequence number on by one. Fails, and changes nothing, exactly on
    /// a payload that is too large or when no sequence number is left.
    pub fn send_packet(&mut self, packet: Packet, sender: &mut LinkSender) -> (sent: Result<(), Error>)
        requires
            old(self).wf(),
        ensures
            final(self).wf(),
            final(self).told_since(old(self)),
            match sent {
                Ok(()) => {
                    &&& old(self)@.send_error(packet@) is None
                    &&& final(self)@ == old(self)@.sent_now()
                    &&& final(sender)@ == old(sender)@.push(old(self)@.outbound(packet@))
                },
                Err(e) => {
                    &&& old(self)@.send_error(packet@) == Some(e)
                    &&& final(self)@ == old(self)@
                    &&& final(sender)@ == old(sender)@
                },
            },
    {
        proof {
            self.lemma_told_nothing();
        }
        let bytes = match self.seal(&packet) {
            Ok(bytes) => bytes,
            Err(e) => {
                return Err(e);
            },
        };
        sender.push(bytes);
        self.last_send_time = Some(self.time);
        self.sequence += 1;
        Ok(())
    }

    /// Puts a packet on the client's own send queue: seals it with the
    /// current sequence number, records the send and moves the sequence
    /// number on by one. Fails, and changes nothing, exactly on a payload
    /// that is too large or when no sequence number is left.
    pub fn send_netcode_packet(&mut self, packet: Packet) -> (sent: Result<(), Error>)
        requires
            old(self).wf(),
        ensures
            final(self).wf(),
            final(self).told_since(old(self)),
            match sent {
                Ok(()) => old(self)@.send_error(packet@) is None && final(self)@ == old(self)@.send_netcode_packet(packet@),
                Err(e) => old(self)@.send_error(packet@) == Some(e) && final(self)@ == old(self)@,
            },
    {
        proof {
            self.lemma_told_nothing();
        }
        let bytes = match self.seal(&packet) {
            Ok(bytes) => bytes,
            Err(e) => {
                return Err(e);
            },
        };
        self.send_queue.push(bytes);
        self.last_send_time = Some(self.time);
        self.sequence += 1;
        proof {
            assert(self@.send_queue =~= old(self)@.send_queue.push(old(self)@.outbound(packet@)));
        }
        Ok(())
    }

    /// The periodic send: queues the packet of the current state if more
    /// than the send rate has passed since the last send.
    fn send_packets(&mut self) -> (sent: Result<(), Error>)
        requires
            old(self).wf(),
        ensures
            final(self).wf(),
            final(self).told_since(old(self)),
            final(self)@ == old(self)@.send_packets(),
            match sent {
                Ok(()) => !(old(self)@.periodic_due() && old(self)@.sequence == u64::MAX),
                Err(e) => old(self)@.periodic_due() && old(self)@.sequence == u64::MAX && e
                    == Error::SequenceExhausted,
            },
    {
        proof {
            self.lemma_told_nothing();
        }
        if let Some(last) = self.last_send_time {
            let due: i128 = (last as i128) + (self.cfg.send_rate_micros() as i128);
            if due >= (self.time as i128) {
                return Ok(());
            }
        }
        let packet = match self.state {
            ClientState::SendingConnectionRequest => RequestPacket::create(
                self.token.protocol_id,
                self.token.expire_timestamp,
                self.token.nonce,
                self.token.private_data,
            ),
            ClientState::SendingChallengeResponse => ResponsePacket::create(
                self.challenge_token_sequence,
                self.challenge_token_data,
            ),
            ClientState::Connected => KeepAlivePacket::create(0),
            _ => {
                return Ok(());
            },
        };
        self.send_netcode_packet(packet)
    }

    /// Lets a decoded packet act on the machine, and hands back the payload
    /// that goes on to the host, if the packet carries one and the client is
    /// connected.
    fn process_packet(&mut self, packet: Packet) -> (payload: Option<Vec<u8>>)
        requires
            old(self).wf(),
        ensures
            final(self).wf(),
            final(self).told_since(old(self)),
            final(self)@ == old(self)@.process_packet(packet@).client,
            payload_view(payload) == old(self)@.process_packet(packet@).payload,
            payload is Some ==> old(self)@.state == ClientState::Connected,
    {
        proof {
            self.lemma_told_nothing();
        }
        let payload = match (packet, self.state) {
            (
                Packet::Denied(_),
                ClientState::SendingConnectionRequest
                | ClientState::SendingChallengeResponse,
            ) => {
                self.should_disconnect = true;
                self.should_disconnect_state = ClientState::ConnectionDenied;
                None
            },
            (Packet::Challenge(pkt), ClientState::SendingConnectionRequest) => {
                self.challenge_token_sequence = pkt.sequence;
                self.challenge_token_data = pkt.token;
                self.set_state(ClientState::SendingChallengeResponse);
                None
            },
            (Packet::KeepAlive(_), ClientState::Connected) => None,
            (Packet::KeepAlive(pkt), ClientState::SendingChallengeResponse) => {
                proof {
                    lemma_with_state_records(self@, ClientState::Connected);
                }
                self.set_state(ClientState::Connected);
                self.id = pkt.client_id;
                None
            },
            (Packet::Payload(pkt), ClientState::Connected) => Some(pkt.buf),
            (Packet::Disconnect(_), ClientState::Connected) => {
                self.should_disconnect = true;
                self.should_disconnect_state = ClientState::Disconnected;
                None
            },
            _ => {
                return None;
            },
        };
        self.last_receive_time = Some(self.time);
        payload
    }

    /// Makes the transitions that time and deferred requests bring about.
    fn update_state(&mut self)
        requires
            old(self).wf(),
        ensures
            final(self).wf(),
            final(self).told_since(old(self)),
            final(self)@ == old(self)@.update_state(),
    {
        proof {
            self.lemma_told_nothing();
        }
        assert(MICROS_PER_SECOND == 1_000_000);
        let time: i128 = self.time as i128;
        let elapsed: i128 = (self.time - self.start_time) as i128;
        let span: i128 = (self.token.expire_timestamp as i128) - (
        self.token.create_timestamp as i128);
        let lifetime: i128 = span * 1_000_000;
        let timeout: i128 = (self.token.timeout_seconds as i128) * 1_000_000;
        let is_token_expired = elapsed >= lifetime;
        let is_connection_timed_out = self.token.timeout_seconds > 0 && match self.last_receive_time {
            Some(t) => (t as i128) + timeout < time,
            None => true,
        };
        let pending = self.state == ClientState::SendingConnectionRequest || self.state
            == ClientState::SendingChallengeResponse;
        let new_state = if pending && is_token_expired {
            ClientState::ConnectTokenExpired
        } else if self.should_disconnect {
            if self.connect_to_next_server() {
                return ;
            }
            self.should_disconnect_state
        } else if !is_connection_timed_out {
            return ;
        } else if self.state == ClientState::SendingConnectionRequest {
            if self.connect_to_next_server() {
                return ;
            }
            ClientState::ConnectionRequestTimedOut
        } else if self.state == ClientState::SendingChallengeResponse {
            if self.connect_to_next_server() {
                return ;
            }
            ClientState::ChallengeResponseTimedOut
        } else if self.state == ClientState::Connected {
            ClientState::ConnectionTimedOut
        } else {
            return ;
        };
        let ghost before = *self;
        self.reset(new_state);
        proof {
            self.lemma_told_then(old(self), &before);
        }
    }

    /// Decodes a datagram that arrived at `now`, lets it act on the machine,
    /// and hands back the payload that goes on to the host, if any. A
    /// datagram that does not decode is dropped and changes nothing.
    fn recv_packet(&mut self, buf: Vec<u8>, now: u64) -> (payload: Option<Vec<u8>>)
        requires
            old(self).wf(),
        ensures
            final(self).wf(),
            final(self).told_since(old(self)),
            final(self)@ == old(self)@.recv_packet(buf@, now).client,
            payload_view(payload) == old(self)@.recv_packet(buf@, now).payload,
    {
        proof {
            self.lemma_told_nothing();
        }
        if buf.len() <= 1 {
            return None;
        }
        let packet = match Packet::read(
            buf.as_slice(),
            self.token.protocol_id,
            now,
            &self.token.server_to_client_key,
            &mut self.replay_protection,
            ALLOWED_PACKETS,
        ) {
            Ok(packet) => packet,
            Err(_) => {
                return None;
            },
        };
        self.process_packet(packet)
    }

    /// Takes in the datagrams that wait in the receiver at this moment, and
    /// no others, and puts the payloads among them back at its end for the
    /// host to read.
    fn recv_packets(&mut self, receiver: &mut LinkReceiver, now: u64)
        requires
            old(self).wf(),
        ensures
            final(self).wf(),
            final(self).told_since(old(self)),
            final(self)@ == old(self)@.recv_packets(old(receiver)@, now).client,
            final(receiver)@ == old(self)@.recv_packets(old(receiver)@, now).payloads,
    {
        let count: usize = receiver.len();
        let ghost inbound = receiver@;
        let ghost start = self@;
        let ghost first = *self;
        proof {
            self.lemma_told_nothing();
        }

        let mut i: usize = 0;
        assert(inbound.take(0) =~= Seq::<Seq<u8>>::empty());
        assert(receiver@ =~= inbound.skip(0) + Seq::<Seq<u8>>::empty());
        while i < count
            invariant
                i <= count,
                count == inbound.len(),
                self.wf(),
                self.told_since(&first),
                self@ == start.recv_packets(inbound.take(i as int), now).client,
                receiver@ == inbound.skip(i as int) + start.recv_packets(
                    inbound.take(i as int),
                    now,
                ).payloads,
            decreases count - i,
        {
            let ghost before = start.recv_packets(inbound.take(i as int), now);
            assert(inbound.take(i + 1).drop_last() =~= inbound.take(i as int));
            assert(inbound.take(i + 1).last() == inbound[i as int]);
            let ghost earlier = *self;
            if let Some(datagram) = receiver.pop() {
                assert(datagram@ == inbound[i as int]);
                if let Some(payload) = self.recv_packet(datagram, now) {
                    receiver.push_raw(payload);
                }
            }
            proof {
                self.lemma_told_then(&first, &earlier);
            }
            assert(receiver@ =~= inbound.skip(i + 1) + start.recv_packets(
                inbound.take(i + 1),
                now,
            ).payloads);
            i += 1;
        }
        assert(inbound.take(count as int) =~= inbound);
        assert(receiver@ =~= start.recv_packets(inbound, now).payloads);
    }

    /// One tick of the client, `delta_micros` microseconds after the last
    /// one and at `now` seconds since the epoch.
    ///
    /// Time moves on; the datagrams that wait in the receiver are taken in
    /// and the payloads among them are put back for the host; the periodic
    /// packet is queued if it is due; then timeouts, token expiry and
    /// deferred disconnects take effect. Returns the state afterwards.
    ///
    /// Fails, with `SequenceExhausted`, exactly when a periodic packet is due
    /// and no sequence number is left for it; the inbound datagrams have been
    /// taken in by then.
    ///
    /// The observer is told of every state change that the tick makes, in
    /// order, each time before the state changes.
    pub fn try_update(&mut self, delta_micros: u64, now: u64, receiver: &mut LinkReceiver) -> (state:
        Result<ClientState, Error>)
        requires
            old(self).wf(),
        ensures
            final(self).wf(),
            final(self).told_since(old(self)),
            final(self)@ == old(self)@.tick(delta_micros, old(receiver)@, now).client,
            final(receiver)@ == old(self)@.tick(delta_micros, old(receiver)@, now).payloads,
            match state {
                Ok(s) => !old(self)@.tick_fails(delta_micros, old(receiver)@, now) && s == final(self)@.state,
                Err(e) => old(self)@.tick_fails(delta_micros, old(receiver)@, now) && e
                    == Error::SequenceExhausted,
            },
    {
        self.time = if delta_micros > (i64::MAX - self.time) as u64 {
            i64::MAX
        } else {
            self.time + delta_micros as i64
        };
        assert(self@ == old(self)@.advance(delta_micros));
        self.recv_packets(receiver, now);
        let ghost drained = *self;
        let sent = self.send_packets();
        proof {
            self.lemma_told_then(old(self), &drained);
        }
        match sent {
            Ok(()) => {},
            Err(e) => {
                return Err(e);
            },
        }
        let ghost queued = *self;
        self.update_state();
        proof {
            self.lemma_told_then(old(self), &queued);
        }
        Ok(self.state)
    }

    /// Moves the protocol packets that wait in the client's send queue to
    /// the transport, in order.
    pub fn drain_send_netcode_packets(&mut self, sender: &mut LinkSender)
        requires
            old(self).wf(),
        ensures
            final(self).wf(),
            final(self).told_since(old(self)),
            final(sender)@ == old(sender)@ + old(self)@.send_queue,
            final(self)@ == (ClientView { send_queue: Seq::empty(), ..old(self)@ }),
    {
        proof {
            self.lemma_told_nothing();
        }
        sender.append(&mut self.send_queue);
        assert(self@.send_queue =~= Seq::<Seq<u8>>::empty());
    }

    /// Sends a payload to the server, straight to the transport.
    ///
    /// While the client is not connected nothing happens. A payload larger
    /// than [`MAX_PACKET_SIZE`] is refused with a size mismatch, and one for
    /// which no sequence number is left with `SequenceExhausted`; nothing
    /// changes then. Otherwise the payload is sealed with the current
    /// sequence number and pushed to the sender, the send time is the current
    /// time and the sequence number has moved on by one.
    pub fn send(&mut self, buf: Vec<u8>, sender: &mut LinkSender) -> (sent: Result<(), Error>)
        requires
            old(self).wf(),
        ensures
            final(self).wf(),
            final(self).told_since(old(self)),
            old(self)@.state != ClientState::Connected ==> sent is Ok && final(self)@ == old(self)@
                && final(sender)@ == old(sender)@,
            old(self)@.state == ClientState::Connected ==> match sent {
                Ok(()) => {
                    &&& buf@.len() <= MAX_PACKET_SIZE
                    &&& old(self)@.sequence < u64::MAX
                    &&& final(self)@ == old(self)@.sent_now()
                    &&& final(sender)@ == old(sender)@.push(
                        old(self)@.outbound(PacketView::Payload { buf: buf@ }),
                    )
                },
                Err(e) => {
                    &&& e == if buf@.len() > MAX_PACKET_SIZE {
                        Error::SizeMismatch(MAX_PACKET_SIZE, buf@.len() as usize)
                    } else {
                        Error::SequenceExhausted
                    }
                    &&& buf@.len() > MAX_PACKET_SIZE || old(self)@.sequence == u64::MAX
                    &&& final(self)@ == old(self)@
                    &&& final(sender)@ == old(sender)@
                },
            },
    {
        proof {
            self.lemma_told_nothing();
        }
        if self.state != ClientState::Connected {
            return Ok(());
        }
        if buf.len() > MAX_PACKET_SIZE {
            return Err(Error::SizeMismatch(MAX_PACKET_SIZE, buf.len()));
        }
        self.send_packet(PayloadPacket::create(buf), sender)
    }

    /// Disconnects from the server: queues the configured number of
    /// disconnect packets, each with a sequence number of its own, and falls
    /// back to `Disconnected`.
    ///
    /// Fails, with `SequenceExhausted`, exactly when fewer sequence numbers
    /// are left than packets are to be queued; the packets for which a number
    /// was left have been queued by then, and the state is as it was.
    pub fn disconnect(&mut self) -> (done: Result<(), Error>)
        requires
            old(self).wf(),
        ensures
            final(self).wf(),
            final(self).told_since(old(self)),
            match done {
                Ok(()) => {
                    &&& old(self)@.sequence + old(self)@.num_disconnect_packets <= u64::MAX
                    &&& final(self)@ == old(self)@.queue_disconnects(
                        old(self)@.num_disconnect_packets,
                    ).reset(ClientState::Disconnected)
                },
                Err(e) => {
                    &&& old(self)@.sequence + old(self)@.num_disconnect_packets > u64::MAX
                    &&& e == Error::SequenceExhausted
                    &&& final(self)@ == old(self)@.queue_disconnects(
                        (u64::MAX - old(self)@.sequence) as nat,
                    )
                },
            },
    {
        let count: usize = self.cfg.disconnect_packet_count();
        let ghost start = self@;
        let ghost first = *self;
        proof {
            self.lemma_told_nothing();
        }

        let mut i: usize = 0;
        assert(self@.send_queue =~= start.queue_disconnects(0).send_queue);
        while i < count
            invariant
                i <= count,
                count == start.num_disconnect_packets,
                start == old(self)@,
                first == *old(self),
                self.wf(),
                self.told_since(&first),
                start.sequence + i <= u64::MAX,
                self@ == start.queue_disconnects(i as nat),
            decreases count - i,
        {
            let ghost before = self@;
            let ghost earlier = *self;
            let queued = self.send_netcode_packet(DisconnectPacket::create());
            proof {
                self.lemma_told_then(&first, &earlier);
            }
            match queued {
                Ok(()) => {},
                Err(e) => {
                    return Err(e);
                },
            }
            proof {
                let after = start.queue_disconnects((i + 1) as nat);
                assert(start.disconnect_packets((i + 1) as nat) =~= start.disconnect_packets(
                    i as nat,
                ).push(before.outbound(PacketView::Disconnect)));
                assert(self@.send_queue =~= after.send_queue);
            }
            i += 1;
        }
        let ghost queued = *self;
        self.reset(ClientState::Disconnected);
        proof {
            self.lemma_told_then(old(self), &queued);
        }
        Ok(())
    }

    /// One tick of the client, for a host that has made sure that the tick
    /// cannot fail: see [`Client::try_update`].
    pub fn update(&mut self, delta_micros: u64, now: u64, receiver: &mut LinkReceiver) -> (state:
        ClientState)
        requires
            old(self).wf(),
            !old(self)@.tick_fails(delta_micros, old(receiver)@, now),
        ensures
            final(self).wf(),
            final(self).told_since(old(self)),
            final(self)@ == old(self)@.tick(delta_micros, old(receiver)@, now).client,
            final(receiver)@ == old(self)@.tick(delta_micros, old(receiver)@, now).payloads,
            state == final(self)@.state,
    {
        match self.try_update(delta_micros, now, receiver) {
            Ok(state) => state,
            Err(_) => vstd::pervasive::unreached(),
        }
    }
}

impl<Ctx, H> Client<Ctx, H> {
    /// The sequence number that the next outbound packet is sealed with.
    pub fn sequence(&self) -> (sequence: u64)
        ensures
            sequence == self@.sequence,
    {
        self.sequence
    }

    /// The place in the token's list of the server that the client is
    /// talking to.
    pub fn server_addr_idx(&self) -> (index: usize)
        ensures
            index == self@.server_addr_idx,
    {
        self.server_addr_idx
    }

    /// Number of protocol packets that wait in the client's send queue.
    pub fn queued_packets(&self) -> (count: usize)
        ensures
            count == self@.send_queue.len(),
    {
        self.send_queue.len()
    }

    /// The connect token that the client was made from.
    pub fn token(&self) -> (token: &ConnectToken)
        ensures
            token@ == self@.token,
    {
        &self.token
    }
}

} // verus!
