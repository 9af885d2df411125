use lightyear_netcode::client::Client;
use lightyear_netcode::config::ClientConfig;
use lightyear_netcode::error::Error;
use lightyear_netcode::link::{LinkReceiver, LinkSender};
use lightyear_netcode::packet::{
    ChallengePacket, DeniedPacket, DisconnectPacket, KeepAlivePacket, Packet, PayloadPacket,
};
use lightyear_netcode::replay::ReplayProtection;
use lightyear_netcode::state::ClientState;
use lightyear_netcode::token::{ConnectToken, ServerAddr};

const PROTOCOL_ID: u64 = 0x1122_3344;
const NOW: u64 = 1_000;
const SECOND: u64 = 1_000_000;

fn addr(last: u8) -> ServerAddr {
    ServerAddr::V4 { octets: [127, 0, 0, last], port: 40_000 }
}

fn token(addresses: Vec<ServerAddr>, timeout_seconds: i32, lifetime: u64) -> ConnectToken {
    ConnectToken {
        protocol_id: PROTOCOL_ID,
        create_timestamp: NOW,
        expire_timestamp: NOW + lifetime,
        nonce: [7u8; 24],
        private_data: [9u8; 1024],
        timeout_seconds,
        server_addresses: addresses,
        client_to_server_key: [1u8; 32],
        server_to_client_key: [2u8; 32],
    }
}

fn from_server(packet: &Packet, sequence: u64) -> Vec<u8> {
    packet.write(sequence, &[2u8; 32], PROTOCOL_ID).unwrap()
}

fn read_as_server(datagram: &[u8]) -> Packet {
    let mut window = ReplayProtection::new();
    Packet::read(datagram, PROTOCOL_ID, NOW, &[1u8; 32], &mut window, 0xff).unwrap()
}

fn connected_client(rate: u64) -> Client<(), lightyear_netcode::config::NoHandler> {
    let blob = token(vec![addr(1)], 0, 30).try_into_bytes().unwrap();
    let cfg = ClientConfig::new().packet_send_rate(rate);
    let mut client = Client::with_config(&blob, cfg).unwrap();
    let mut receiver = LinkReceiver::new();
    client.connect();
    receiver.push_raw(from_server(&ChallengePacket::create(7, [5u8; 300]), 0));
    client.try_update(0, NOW, &mut receiver).unwrap();
    receiver.push_raw(from_server(
        &Packet::KeepAlive(KeepAlivePacket { client_id: 42, max_clients: 16 }),
        1,
    ));
    client.try_update(0, NOW, &mut receiver).unwrap();
    assert!(client.is_connected());
    client
}

#[test]
fn happy_path_reaches_connected() {
    let blob = token(vec![addr(1)], 15, 30).try_into_bytes().unwrap();
    let mut client = Client::new(&blob).unwrap();
    let mut receiver = LinkReceiver::new();
    let mut sender = LinkSender::new();
    assert_eq!(client.state(), ClientState::Disconnected);
    assert_eq!(client.id(), 0);
    client.connect();
    assert_eq!(client.state(), ClientState::SendingConnectionRequest);

    let challenge = [5u8; 300];
    receiver.push_raw(from_server(&ChallengePacket::create(7, challenge), 0));
    let state = client.try_update(10_000, NOW, &mut receiver).unwrap();
    assert_eq!(state, ClientState::SendingChallengeResponse);
    assert_eq!(receiver.len(), 0);
    client.drain_send_netcode_packets(&mut sender);
    let sent = sender.drain();
    assert_eq!(sent.len(), 1);
    match read_as_server(&sent[0]) {
        Packet::Response(response) => {
            assert_eq!(response.sequence, 7);
            assert_eq!(response.token, challenge);
        }
        other => panic!("unexpected packet {:?}", other),
    }

    receiver.push_raw(from_server(
        &Packet::KeepAlive(KeepAlivePacket { client_id: 42, max_clients: 16 }),
        1,
    ));
    let state = client.try_update(10_000, NOW, &mut receiver).unwrap();
    assert_eq!(state, ClientState::Connected);
    assert!(client.is_connected());
    assert!(!client.is_pending());
    assert_eq!(client.id(), 42);
}

#[test]
fn denied_request_ends_in_connection_denied() {
    let blob = token(vec![addr(1)], 15, 30).try_into_bytes().unwrap();
    let mut client = Client::new(&blob).unwrap();
    let mut receiver = LinkReceiver::new();
    client.connect();
    receiver.push_raw(from_server(&DeniedPacket::create(1), 0));
    let state = client.try_update(200_000, NOW, &mut receiver).unwrap();
    assert_eq!(state, ClientState::ConnectionDenied);
    assert!(client.is_error());
    assert!(!client.is_disconnected());
}

#[test]
fn token_expires_mid_handshake() {
    let blob = token(vec![addr(1)], 15, 1).try_into_bytes().unwrap();
    let mut client = Client::new(&blob).unwrap();
    let mut receiver = LinkReceiver::new();
    client.connect();
    let state = client.try_update(1_500_000, NOW, &mut receiver).unwrap();
    assert_eq!(state, ClientState::ConnectTokenExpired);
    assert!(client.is_error());
}

#[test]
fn timeout_fails_over_to_the_next_server() {
    let blob = token(vec![addr(1), addr(2)], 2, 30).try_into_bytes().unwrap();
    let mut client = Client::new(&blob).unwrap();
    let mut receiver = LinkReceiver::new();
    client.connect();
    assert_eq!(client.server_addr(), addr(1));
    let state = client.try_update(3 * SECOND, NOW, &mut receiver).unwrap();
    assert_eq!(state, ClientState::SendingConnectionRequest);
    assert_eq!(client.server_addr_idx(), 1);
    assert_eq!(client.server_addr(), addr(2));
    assert_eq!(client.sequence(), 0);

    let state = client.try_update(3 * SECOND, NOW, &mut receiver).unwrap();
    assert_eq!(state, ClientState::ConnectionRequestTimedOut);
    assert_eq!(client.server_addr_idx(), 0);
}

#[test]
fn keep_alives_follow_the_send_rate() {
    let mut client = connected_client(100_000);
    let mut receiver = LinkReceiver::new();
    let mut sender = LinkSender::new();
    client.try_update(SECOND, NOW, &mut receiver).unwrap();
    client.drain_send_netcode_packets(&mut sender);
    sender.drain();

    client.try_update(50_000, NOW, &mut receiver).unwrap();
    assert_eq!(client.queued_packets(), 0);

    for _ in 0..10 {
        client.try_update(100_001, NOW, &mut receiver).unwrap();
    }
    assert_eq!(client.queued_packets(), 10);
    client.drain_send_netcode_packets(&mut sender);
    for datagram in sender.drain() {
        assert_eq!(read_as_server(&datagram), KeepAlivePacket::create(0));
    }
}

#[test]
fn disconnect_queues_redundant_packets() {
    let mut client = connected_client(100_000);
    let mut sender = LinkSender::new();
    client.drain_send_netcode_packets(&mut sender);
    sender.drain();

    client.disconnect().unwrap();
    assert_eq!(client.state(), ClientState::Disconnected);
    assert!(client.is_disconnected());
    assert_eq!(client.queued_packets(), 10);
    client.drain_send_netcode_packets(&mut sender);
    let sent = sender.drain();
    assert_eq!(sent.len(), 10);
    for datagram in &sent {
        assert_eq!(read_as_server(datagram), DisconnectPacket::create());
    }

    assert_eq!(client.send(vec![1, 2, 3], &mut sender), Ok(()));
    assert_eq!(sender.len(), 0);
    assert_eq!(client.sequence(), 0);
}

#[test]
fn payloads_are_sealed_and_sized() {
    let mut client = connected_client(100_000);
    let mut sender = LinkSender::new();
    let before = client.sequence();
    assert_eq!(client.send(vec![3u8; 40], &mut sender), Ok(()));
    assert_eq!(client.sequence(), before + 1);
    let sent = sender.drain();
    assert_eq!(sent.len(), 1);
    assert_eq!(read_as_server(&sent[0]), PayloadPacket::create(vec![3u8; 40]));

    assert_eq!(
        client.send(vec![0u8; 1201], &mut sender),
        Err(Error::SizeMismatch(1200, 1201))
    );
    assert_eq!(client.sequence(), before + 1);
    assert_eq!(sender.len(), 0);
}
