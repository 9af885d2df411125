use lightyear_netcode::client::Client;
use lightyear_netcode::config::{ClientConfig, NoHandler, StateChangeHandler};
use lightyear_netcode::error::{Error, TokenError};
use lightyear_netcode::link::{LinkReceiver, LinkSender};
use lightyear_netcode::packet::{
    ChallengePacket, DeniedPacket, DisconnectPacket, KeepAlivePacket, Packet, PayloadPacket,
    RequestPacket, ResponsePacket,
};
use lightyear_netcode::replay::ReplayProtection;
use lightyear_netcode::state::ClientState;
use lightyear_netcode::token::{ConnectToken, ServerAddr};

const PROTOCOL_ID: u64 = 9;
const NOW: u64 = 50;
const C2S: [u8; 32] = [0x21; 32];
const S2C: [u8; 32] = [0x22; 32];
const MS: u64 = 1_000;
const SECOND: u64 = 1_000_000;

fn addr(last: u8) -> ServerAddr {
    ServerAddr::V4 { octets: [10, 0, 0, last], port: 7777 }
}

fn token(servers: u8, timeout_seconds: i32, lifetime: u64) -> ConnectToken {
    ConnectToken {
        protocol_id: PROTOCOL_ID,
        create_timestamp: NOW,
        expire_timestamp: NOW + lifetime,
        nonce: [1u8; 24],
        private_data: [2u8; 1024],
        timeout_seconds,
        server_addresses: (1..=servers).map(addr).collect(),
        client_to_server_key: C2S,
        server_to_client_key: S2C,
    }
}

fn client(servers: u8, timeout_seconds: i32, lifetime: u64) -> Client<(), NoHandler> {
    Client::new(&token(servers, timeout_seconds, lifetime).try_into_bytes().unwrap()).unwrap()
}

fn from_server(packet: &Packet, sequence: u64) -> Vec<u8> {
    packet.write(sequence, &S2C, PROTOCOL_ID).unwrap()
}

fn keep_alive(client_id: u64) -> Packet {
    Packet::KeepAlive(KeepAlivePacket { client_id, max_clients: 8 })
}

fn sent_by<Ctx, H>(client: &mut Client<Ctx, H>) -> Vec<Packet>
where
    H: StateChangeHandler<Ctx>,
{
    let mut sender = LinkSender::new();
    client.drain_send_netcode_packets(&mut sender);
    let mut window = ReplayProtection::new();
    sender
        .drain()
        .iter()
        .map(|datagram| {
            Packet::read(datagram, PROTOCOL_ID, NOW, &C2S, &mut window, 0xff).unwrap()
        })
        .collect()
}

fn connect<Ctx, H>(client: &mut Client<Ctx, H>)
where
    H: StateChangeHandler<Ctx>,
{
    let mut receiver = LinkReceiver::new();
    client.connect();
    receiver.push_raw(from_server(&ChallengePacket::create(3, [4u8; 300]), 0));
    receiver.push_raw(from_server(&keep_alive(42), 1));
    assert_eq!(client.try_update(0, NOW, &mut receiver), Ok(ClientState::Connected));
    assert_eq!(receiver.len(), 0);
}

#[test]
fn new_client_is_disconnected_and_silent() {
    let mut client = client(1, 15, 30);
    let mut receiver = LinkReceiver::new();
    assert_eq!(client.state(), ClientState::Disconnected);
    assert!(client.is_disconnected());
    assert!(!client.is_error());
    assert!(!client.is_pending());
    assert!(!client.is_connected());
    assert_eq!(client.id(), 0);
    assert_eq!(client.sequence(), 0);
    assert_eq!(client.server_addr_idx(), 0);
    assert_eq!(client.server_addr(), addr(1));
    assert_eq!(client.token().protocol_id, PROTOCOL_ID);
    for _ in 0..5 {
        assert_eq!(client.try_update(60 * SECOND, NOW, &mut receiver), Ok(ClientState::Disconnected));
    }
    assert_eq!(client.queued_packets(), 0);
}

#[test]
fn bad_token_blob_makes_no_client() {
    assert!(matches!(Client::new(&[0u8; 100]), Err(Error::SizeMismatch(2048, 100))));
    assert!(matches!(
        Client::new(&[0u8; 2048]),
        Err(Error::InvalidToken(TokenError::AddressCount(0)))
    ));
    let mut blob = token(1, 15, 30).try_into_bytes().unwrap();
    blob[1080] = 3;
    assert!(matches!(
        Client::with_config(&blob, ClientConfig::new()),
        Err(Error::InvalidToken(TokenError::AddressKind(3)))
    ));
}

#[test]
fn request_is_sent_at_once_and_then_at_the_send_rate() {
    let mut client = client(1, 15, 30);
    let mut receiver = LinkReceiver::new();
    client.connect();
    assert!(client.is_pending());
    assert_eq!(client.update(0, NOW, &mut receiver), ClientState::SendingConnectionRequest);
    assert_eq!(client.queued_packets(), 1);
    assert_eq!(client.sequence(), 1);
    // exactly the send rate is not enough
    client.update(100 * MS, NOW, &mut receiver);
    assert_eq!(client.queued_packets(), 1);
    client.update(1, NOW, &mut receiver);
    assert_eq!(client.queued_packets(), 2);
    client.update(100 * MS, NOW, &mut receiver);
    assert_eq!(client.queued_packets(), 2);
    client.update(100 * MS, NOW, &mut receiver);
    assert_eq!(client.queued_packets(), 3);
    assert_eq!(client.sequence(), 3);
    let request = RequestPacket::create(PROTOCOL_ID, NOW + 30, [1u8; 24], [2u8; 1024]);
    assert_eq!(sent_by(&mut client), vec![request.clone(), request.clone(), request]);
    assert_eq!(client.queued_packets(), 0);
}

#[test]
fn sequence_numbers_go_up_by_one_from_packet_to_packet() {
    let mut client = client(1, 0, 30);
    connect(&mut client);
    let mut sender = LinkSender::new();
    let mut receiver = LinkReceiver::new();
    client.drain_send_netcode_packets(&mut sender);
    sender.drain();
    let first = client.sequence();
    client.send(vec![1], &mut sender).unwrap();
    client.update(SECOND, NOW, &mut receiver);
    client.send(vec![2], &mut sender).unwrap();
    client.send(vec![3], &mut sender).unwrap();
    client.drain_send_netcode_packets(&mut sender);
    assert_eq!(client.sequence(), first + 4);
    let sent = sender.drain();
    // payload, payload, payload, then the keep-alive from the queue
    let numbers: Vec<u8> = sent.iter().map(|datagram| datagram[1]).collect();
    assert_eq!(
        numbers,
        vec![first as u8, first as u8 + 2, first as u8 + 3, first as u8 + 1]
    );
    for datagram in &sent {
        assert_eq!(datagram[0] >> 4, 1);
    }
}

#[test]
fn challenge_outside_the_request_state_is_ignored() {
    let mut client = client(1, 0, 30);
    let mut receiver = LinkReceiver::new();
    receiver.push_raw(from_server(&ChallengePacket::create(3, [4u8; 300]), 0));
    assert_eq!(client.update(0, NOW, &mut receiver), ClientState::Disconnected);
    connect(&mut client);
    receiver.push_raw(from_server(&ChallengePacket::create(5, [6u8; 300]), 2));
    assert_eq!(client.update(0, NOW, &mut receiver), ClientState::Connected);
}

#[test]
fn keep_alive_in_the_request_state_does_not_connect() {
    let mut client = client(1, 0, 30);
    let mut receiver = LinkReceiver::new();
    client.connect();
    receiver.push_raw(from_server(&keep_alive(42), 0));
    assert_eq!(client.update(0, NOW, &mut receiver), ClientState::SendingConnectionRequest);
    assert_eq!(client.id(), 0);
}

#[test]
fn payload_reaches_the_host_only_when_connected() {
    let mut client = client(1, 0, 30);
    let mut receiver = LinkReceiver::new();
    let payload = PayloadPacket::create(vec![1, 2, 3]);

    receiver.push_raw(from_server(&payload, 0));
    client.update(0, NOW, &mut receiver);
    assert_eq!(receiver.len(), 0);

    client.connect();
    receiver.push_raw(from_server(&payload, 1));
    assert_eq!(client.update(0, NOW, &mut receiver), ClientState::SendingConnectionRequest);
    assert_eq!(receiver.len(), 0);

    receiver.push_raw(from_server(&ChallengePacket::create(3, [4u8; 300]), 2));
    receiver.push_raw(from_server(&payload, 3));
    assert_eq!(client.update(0, NOW, &mut receiver), ClientState::SendingChallengeResponse);
    assert_eq!(receiver.len(), 0);

    receiver.push_raw(from_server(&keep_alive(42), 4));
    receiver.push_raw(from_server(&payload, 5));
    receiver.push_raw(from_server(&PayloadPacket::create(vec![]), 6));
    assert_eq!(client.update(0, NOW, &mut receiver), ClientState::Connected);
    assert_eq!(receiver.len(), 2);
    assert_eq!(receiver.pop(), Some(vec![1, 2, 3]));
    assert_eq!(receiver.pop(), Some(vec![]));
}

#[test]
fn payloads_put_back_are_left_for_the_host() {
    let mut client = client(1, 0, 30);
    connect(&mut client);
    let mut receiver = LinkReceiver::new();
    receiver.push_raw(from_server(&PayloadPacket::create(vec![7; 40]), 2));
    receiver.push_raw(vec![0xff; 40]);
    receiver.push_raw(from_server(&PayloadPacket::create(vec![8; 30]), 3));
    client.update(0, NOW, &mut receiver);
    assert_eq!(receiver.len(), 2);
    // A second tick would take the payloads for datagrams, and drop them.
    assert_eq!(receiver.pop(), Some(vec![7; 40]));
    assert_eq!(receiver.pop(), Some(vec![8; 30]));
}

#[test]
fn replayed_datagram_changes_nothing() {
    let mut client = client(1, 0, 30);
    connect(&mut client);
    let mut receiver = LinkReceiver::new();
    let datagram = from_server(&PayloadPacket::create(vec![5; 10]), 2);
    receiver.push_raw(datagram.clone());
    receiver.push_raw(datagram.clone());
    client.update(0, NOW, &mut receiver);
    assert_eq!(receiver.len(), 1);
    assert_eq!(receiver.pop(), Some(vec![5; 10]));
    receiver.push_raw(from_server(&PayloadPacket::create(vec![6; 10]), 3));
    receiver.push_raw(datagram.clone());
    client.update(0, NOW, &mut receiver);
    assert_eq!(receiver.len(), 1);
    assert_eq!(receiver.pop(), Some(vec![6; 10]));

    // A replayed disconnect does not end a later connection attempt's peer.
    let disconnect = from_server(&DisconnectPacket::create(), 4);
    receiver.push_raw(datagram);
    receiver.push_raw(from_server(&keep_alive(42), 0));
    receiver.push_raw(from_server(&ChallengePacket::create(3, [4u8; 300]), 0));
    assert_eq!(client.update(0, NOW, &mut receiver), ClientState::Connected);
    assert_eq!(receiver.len(), 0);
    receiver.push_raw(disconnect.clone());
    assert_eq!(client.update(0, NOW, &mut receiver), ClientState::Disconnected);
    assert_eq!(client.sequence(), 0);
}

#[test]
fn malformed_datagrams_are_dropped() {
    let mut client = client(1, 0, 30);
    connect(&mut client);
    let mut receiver = LinkReceiver::new();
    let sequence = client.sequence();
    receiver.push_raw(vec![]);
    receiver.push_raw(vec![0x15]);
    receiver.push_raw(vec![0x15, 0x02]);
    receiver.push_raw(vec![0x17; 64]);
    receiver.push_raw(vec![0x00; 1065]);
    receiver.push_raw(PayloadPacket::create(vec![1]).write(7, &C2S, PROTOCOL_ID).unwrap());
    receiver.push_raw(ResponsePacket::create(1, [0; 300]).write(8, &S2C, PROTOCOL_ID).unwrap());
    assert_eq!(client.update(0, NOW, &mut receiver), ClientState::Connected);
    assert_eq!(receiver.len(), 0);
    assert_eq!(client.sequence(), sequence);
    // none of them has left a mark in the replay window
    receiver.push_raw(from_server(&PayloadPacket::create(vec![9]), 7));
    receiver.push_raw(from_server(&PayloadPacket::create(vec![9, 9]), 8));
    client.update(0, NOW, &mut receiver);
    assert_eq!(receiver.len(), 2);
}

#[test]
fn denial_during_the_challenge_response_is_an_error() {
    let mut client = client(1, 0, 30);
    let mut receiver = LinkReceiver::new();
    client.connect();
    receiver.push_raw(from_server(&ChallengePacket::create(3, [4u8; 300]), 0));
    client.update(0, NOW, &mut receiver);
    receiver.push_raw(from_server(&DeniedPacket::create(1), 1));
    assert_eq!(client.update(0, NOW, &mut receiver), ClientState::ConnectionDenied);
    assert!(client.is_error());
    assert_eq!(client.sequence(), 0);
}

#[test]
fn denial_while_connected_is_ignored() {
    let mut client = client(1, 0, 30);
    connect(&mut client);
    let mut receiver = LinkReceiver::new();
    receiver.push_raw(from_server(&DeniedPacket::create(1), 2));
    assert_eq!(client.update(0, NOW, &mut receiver), ClientState::Connected);
}

#[test]
fn denial_moves_on_to_the_next_server_first() {
    let mut client = client(2, 0, 30);
    let mut receiver = LinkReceiver::new();
    client.connect();
    receiver.push_raw(from_server(&DeniedPacket::create(1), 0));
    assert_eq!(client.update(0, NOW, &mut receiver), ClientState::SendingConnectionRequest);
    assert_eq!(client.server_addr_idx(), 1);
    assert_eq!(client.server_addr(), addr(2));
    // the replay window was cleared with the failover
    receiver.push_raw(from_server(&DeniedPacket::create(1), 0));
    assert_eq!(client.update(0, NOW, &mut receiver), ClientState::ConnectionDenied);
    assert_eq!(client.server_addr_idx(), 0);
}

#[test]
fn server_disconnect_ends_the_connection_at_the_next_tick() {
    let mut client = client(1, 0, 30);
    connect(&mut client);
    let mut receiver = LinkReceiver::new();
    receiver.push_raw(from_server(&DisconnectPacket::create(), 2));
    receiver.push_raw(from_server(&PayloadPacket::create(vec![1]), 3));
    assert_eq!(client.update(0, NOW, &mut receiver), ClientState::Disconnected);
    // the payload behind the disconnect was still handed on
    assert_eq!(receiver.pop(), Some(vec![1]));
    assert!(client.is_disconnected());
    assert_eq!(client.id(), 42);
}

#[test]
fn every_server_is_tried_once_before_the_request_times_out() {
    let mut client = client(3, 2, 3600);
    let mut receiver = LinkReceiver::new();
    client.connect();
    let mut tried = vec![client.server_addr()];
    let mut states = Vec::new();
    for _ in 0..3 {
        states.push(client.update(2 * SECOND + 1, NOW, &mut receiver));
        tried.push(client.server_addr());
    }
    assert_eq!(
        states,
        vec![
            ClientState::SendingConnectionRequest,
            ClientState::SendingConnectionRequest,
            ClientState::ConnectionRequestTimedOut
        ]
    );
    assert_eq!(tried, vec![addr(1), addr(2), addr(3), addr(1)]);
    assert!(client.is_error());
    // an error state is final until the host connects again
    assert_eq!(client.update(10 * SECOND, NOW, &mut receiver), ClientState::ConnectionRequestTimedOut);
}

#[test]
fn timeout_is_strict() {
    let mut client = client(1, 2, 3600);
    let mut receiver = LinkReceiver::new();
    client.connect();
    assert_eq!(client.update(2 * SECOND, NOW, &mut receiver), ClientState::SendingConnectionRequest);
    assert_eq!(client.update(1, NOW, &mut receiver), ClientState::ConnectionRequestTimedOut);
}

#[test]
fn challenge_response_times_out() {
    let mut client = client(1, 2, 3600);
    let mut receiver = LinkReceiver::new();
    client.connect();
    receiver.push_raw(from_server(&ChallengePacket::create(3, [4u8; 300]), 0));
    assert_eq!(client.update(SECOND, NOW, &mut receiver), ClientState::SendingChallengeResponse);
    // the challenge counted as received one second in
    assert_eq!(client.update(2 * SECOND, NOW, &mut receiver), ClientState::SendingChallengeResponse);
    assert_eq!(client.update(1, NOW, &mut receiver), ClientState::ChallengeResponseTimedOut);
}

#[test]
fn connection_times_out_without_failover() {
    let mut client = client(2, 2, 3600);
    connect(&mut client);
    let mut receiver = LinkReceiver::new();
    assert_eq!(client.update(2 * SECOND, NOW, &mut receiver), ClientState::Connected);
    receiver.push_raw(from_server(&keep_alive(42), 2));
    assert_eq!(client.update(SECOND, NOW, &mut receiver), ClientState::Connected);
    assert_eq!(client.update(2 * SECOND, NOW, &mut receiver), ClientState::Connected);
    assert_eq!(client.update(1, NOW, &mut receiver), ClientState::ConnectionTimedOut);
    assert_eq!(client.server_addr_idx(), 0);
    assert!(client.is_error());
}

#[test]
fn no_timeout_unless_the_token_sets_one() {
    for timeout in [0, -1, i32::MIN] {
        let mut client = client(1, timeout, 3600);
        let mut receiver = LinkReceiver::new();
        connect(&mut client);
        assert_eq!(client.update(100_000 * SECOND, NOW, &mut receiver), ClientState::Connected);
    }
}

#[test]
fn token_expiry_comes_before_failover() {
    let mut client = client(2, 1, 1);
    let mut receiver = LinkReceiver::new();
    client.connect();
    assert_eq!(client.update(SECOND - 1, NOW, &mut receiver), ClientState::SendingConnectionRequest);
    assert_eq!(client.update(1, NOW, &mut receiver), ClientState::ConnectTokenExpired);
    assert_eq!(client.server_addr_idx(), 0);
}

#[test]
fn token_expiry_does_not_end_a_connection() {
    let mut client = client(1, 0, 1);
    connect(&mut client);
    let mut receiver = LinkReceiver::new();
    assert_eq!(client.update(10 * SECOND, NOW, &mut receiver), ClientState::Connected);
}

#[test]
fn response_echoes_the_challenge() {
    let mut client = client(1, 0, 30);
    let mut receiver = LinkReceiver::new();
    client.connect();
    client.update(0, NOW, &mut receiver);
    let mut token = [0u8; 300];
    for (i, byte) in token.iter_mut().enumerate() {
        *byte = (i % 256) as u8;
    }
    receiver.push_raw(from_server(&ChallengePacket::create(u64::MAX - 1, token), 0));
    client.update(200 * MS, NOW, &mut receiver);
    let sent = sent_by(&mut client);
    assert_eq!(sent.len(), 2);
    assert!(matches!(sent[0], Packet::Request(_)));
    assert_eq!(sent[1], ResponsePacket::create(u64::MAX - 1, token));
}

#[test]
fn send_while_not_connected_does_nothing() {
    let mut client = client(1, 0, 30);
    let mut sender = LinkSender::new();
    assert_eq!(client.send(vec![1; 5000], &mut sender), Ok(()));
    client.connect();
    assert_eq!(client.send(vec![1], &mut sender), Ok(()));
    assert_eq!(sender.len(), 0);
    assert_eq!(client.sequence(), 0);
}

#[test]
fn user_payload_puts_off_the_keep_alive() {
    let mut client = client(1, 0, 30);
    connect(&mut client);
    let mut receiver = LinkReceiver::new();
    let mut sender = LinkSender::new();
    client.drain_send_netcode_packets(&mut sender);
    client.update(90 * MS, NOW, &mut receiver);
    client.send(vec![1], &mut sender).unwrap();
    client.update(100 * MS, NOW, &mut receiver);
    assert_eq!(client.queued_packets(), 0);
    client.update(1, NOW, &mut receiver);
    assert_eq!(client.queued_packets(), 1);
}

#[test]
fn disconnect_packet_count_is_configurable() {
    for count in [0usize, 1, 3] {
        let blob = token(1, 0, 30).try_into_bytes().unwrap();
        let cfg = ClientConfig::new().num_disconnect_packets(count);
        let mut client = Client::with_config(&blob, cfg).unwrap();
        connect(&mut client);
        sent_by(&mut client);
        let first = client.sequence();
        assert_eq!(client.disconnect(), Ok(()));
        assert_eq!(client.state(), ClientState::Disconnected);
        assert_eq!(client.sequence(), 0);
        let mut sender = LinkSender::new();
        client.drain_send_netcode_packets(&mut sender);
        let sent = sender.drain();
        assert_eq!(sent.len(), count);
        for (i, datagram) in sent.iter().enumerate() {
            assert_eq!(datagram[0], (1 << 4) | 6);
            assert_eq!(datagram[1] as u64, first + i as u64);
        }
    }
}

#[test]
fn client_can_connect_again_after_an_error() {
    let mut client = client(1, 1, 3600);
    let mut receiver = LinkReceiver::new();
    client.connect();
    assert_eq!(client.update(2 * SECOND, NOW, &mut receiver), ClientState::ConnectionRequestTimedOut);
    connect(&mut client);
    assert!(client.is_connected());
    assert_eq!(client.id(), 42);
}

#[test]
fn time_stops_at_its_largest_value() {
    let mut client = client(1, 0, 30);
    connect(&mut client);
    let mut receiver = LinkReceiver::new();
    sent_by(&mut client);
    assert_eq!(client.update(u64::MAX, NOW, &mut receiver), ClientState::Connected);
    assert_eq!(client.queued_packets(), 1);
    assert_eq!(client.update(u64::MAX, NOW, &mut receiver), ClientState::Connected);
    assert_eq!(client.update(1, NOW, &mut receiver), ClientState::Connected);
    assert_eq!(client.queued_packets(), 1);
}

struct Recorder {
    calls: usize,
}

impl StateChangeHandler<Vec<(ClientState, ClientState)>> for Recorder {
    fn state_changed(
        &mut self,
        from: ClientState,
        to: ClientState,
        ctx: &mut Vec<(ClientState, ClientState)>,
    ) {
        self.calls += 1;
        ctx.push((from, to));
    }
}

struct Shared(std::rc::Rc<std::cell::RefCell<Vec<(ClientState, ClientState)>>>);

impl StateChangeHandler<()> for Shared {
    fn state_changed(&mut self, from: ClientState, to: ClientState, _ctx: &mut ()) {
        self.0.borrow_mut().push((from, to));
    }
}

#[test]
fn observer_sees_every_state_change_in_order() {
    let seen = std::rc::Rc::new(std::cell::RefCell::new(Vec::new()));
    let blob = token(2, 2, 3600).try_into_bytes().unwrap();
    let cfg = ClientConfig::new().on_state_change(Shared(seen.clone()));
    let mut client = Client::with_config(&blob, cfg).unwrap();
    let mut receiver = LinkReceiver::new();
    assert!(seen.borrow().is_empty());
    client.connect();
    client.update(3 * SECOND, NOW, &mut receiver);
    connect(&mut client);
    client.disconnect().unwrap();
    client.connect();
    client.update(3 * SECOND, NOW, &mut receiver);
    client.update(3 * SECOND, NOW, &mut receiver);
    let request = ClientState::SendingConnectionRequest;
    assert_eq!(
        *seen.borrow(),
        vec![
            (ClientState::Disconnected, request),
            (request, request),
            (request, request),
            (request, ClientState::SendingChallengeResponse),
            (ClientState::SendingChallengeResponse, ClientState::Connected),
            (ClientState::Connected, ClientState::Disconnected),
            (ClientState::Disconnected, request),
            (request, request),
            (request, ClientState::ConnectionRequestTimedOut),
        ]
    );
}

#[test]
fn observer_may_change_the_context() {
    let blob = token(1, 0, 30).try_into_bytes().unwrap();
    let cfg = ClientConfig::with_context(Vec::new())
        .num_disconnect_packets(2)
        .packet_send_rate(5 * SECOND)
        .on_state_change(Recorder { calls: 0 });
    assert_eq!(cfg.disconnect_packet_count(), 2);
    assert_eq!(cfg.send_rate_micros(), 5 * SECOND);
    let mut client = Client::with_config(&blob, cfg).unwrap();
    connect(&mut client);
    let mut receiver = LinkReceiver::new();
    // The last send counts as one second before the connection attempt.
    assert_eq!(client.queued_packets(), 0);
    client.update(4 * SECOND, NOW, &mut receiver);
    assert_eq!(client.queued_packets(), 0);
    client.update(1, NOW, &mut receiver);
    assert_eq!(client.queued_packets(), 1);
    client.update(5 * SECOND, NOW, &mut receiver);
    assert_eq!(client.queued_packets(), 1);
    client.update(1, NOW, &mut receiver);
    assert_eq!(client.queued_packets(), 2);
    client.disconnect().unwrap();
    assert_eq!(client.queued_packets(), 4);
}

#[test]
fn default_configuration() {
    let cfg = ClientConfig::default();
    assert_eq!(cfg.disconnect_packet_count(), 10);
    assert_eq!(cfg.send_rate_micros(), 100_000);
    let cfg = ClientConfig::new();
    assert_eq!(cfg.disconnect_packet_count(), 10);
    assert_eq!(cfg.send_rate_micros(), 100_000);
    let cfg = ClientConfig::with_context(5u8);
    assert_eq!(cfg.disconnect_packet_count(), 10);
    assert_eq!(cfg.send_rate_micros(), 100_000);
}

#[test]
fn sent_packet_carries_the_current_sequence_number() {
    let mut client = client(1, 0, 30);
    let mut sender = LinkSender::new();
    for expected in 0..300u64 {
        assert_eq!(client.sequence(), expected);
        assert_eq!(client.send_packet(PayloadPacket::create(vec![1]), &mut sender), Ok(()));
    }
    assert_eq!(client.sequence(), 300);
    assert_eq!(client.queued_packets(), 0);
    let sent = sender.drain();
    assert_eq!(sent.len(), 300);
    let mut window = ReplayProtection::new();
    for (i, datagram) in sent.iter().enumerate() {
        let bytes = if i < 256 { 1 } else { 2 };
        assert_eq!(datagram[0], (bytes << 4) | 5);
        assert_eq!(datagram[1], (i % 256) as u8);
        assert_eq!(datagram.len(), 1 + bytes as usize + 1 + 16);
        assert_eq!(
            Packet::read(datagram, PROTOCOL_ID, NOW, &C2S, &mut window, 0xff),
            Ok(PayloadPacket::create(vec![1]))
        );
        assert_eq!(window.most_recent_sequence(), i as u64);
    }
    assert_eq!(
        client.send_packet(PayloadPacket::create(vec![0; 1201]), &mut sender),
        Err(Error::SizeMismatch(1200, 1201))
    );
    assert_eq!(client.sequence(), 300);
    assert_eq!(sender.len(), 0);
}

#[test]
fn queued_packet_carries_the_current_sequence_number() {
    let mut client = client(1, 0, 30);
    assert_eq!(client.send_netcode_packet(DisconnectPacket::create()), Ok(()));
    assert_eq!(client.send_netcode_packet(KeepAlivePacket::create(0)), Ok(()));
    assert_eq!(
        client.send_netcode_packet(PayloadPacket::create(vec![0; 1201])),
        Err(Error::SizeMismatch(1200, 1201))
    );
    assert_eq!(client.sequence(), 2);
    assert_eq!(client.queued_packets(), 2);
    let mut sender = LinkSender::new();
    client.drain_send_netcode_packets(&mut sender);
    let sent = sender.drain();
    assert_eq!(sent[0][1], 0);
    assert_eq!(sent[1][1], 1);
    let mut window = ReplayProtection::new();
    assert_eq!(
        Packet::read(&sent[0], PROTOCOL_ID, NOW, &C2S, &mut window, 0xff),
        Ok(DisconnectPacket::create())
    );
    assert_eq!(
        Packet::read(&sent[1], PROTOCOL_ID, NOW, &C2S, &mut window, 0xff),
        Ok(KeepAlivePacket::create(0))
    );
}
