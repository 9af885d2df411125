//! What holds of the state machine whatever the host and the network do.

use vstd::prelude::*;
use crate::error::Error;
use crate::machine::{
    lemma_process_packet_keeps_wf, lemma_update_state_keeps_wf, ClientView, Received,
    ALLOWED_PACKETS,
};
use crate::packet::{mask_allows, PacketView, REQUEST};
use crate::replay::ReplayView;
use crate::state::ClientState;

verus! {

/// Whether everything that `before` refuses is refused by `after` too.
pub open spec fn window_grows(before: ReplayView, after: ReplayView) -> bool {
    forall|s: u64| before.rejects(s) ==> #[trigger] after.rejects(s)
}

/// Whether `datagram` can do nothing to `client`: it is too short to be a
/// packet, or it fails to decode, whenever it arrives.
pub open spec fn is_dropped(client: ClientView, datagram: Seq<u8>) -> bool {
    datagram.len() <= 1 || forall|now: u64| #[trigger]
        PacketView::decode(
            datagram,
            client.token.protocol_id,
            now,
            client.token.server_to_client_key,
            client.replay,
            ALLOWED_PACKETS,
        ) is Err
}

/// A datagram that fails to decode through one window fails through every
/// window that refuses at least as much, at any time, for a mask that does
/// not hold the request kind.
pub proof fn lemma_decode_failure_is_stable(
    bytes: Seq<u8>,
    protocol_id: u64,
    now: u64,
    later: u64,
    key: Seq<u8>,
    window: ReplayView,
    grown: ReplayView,
    allowed: u8,
)
    requires
        !mask_allows(allowed, REQUEST),
        window_grows(window, grown),
        PacketView::decode(bytes, protocol_id, now, key, window, allowed) is Err,
    ensures
        PacketView::decode(bytes, protocol_id, later, key, grown, allowed) is Err,
{
}

/// A sealed datagram that decodes leaves a window which refuses whatever the
/// window before it refused, and through which the datagram is refused as a
/// replay from then on, whatever the time and the mask.
pub proof fn lemma_decoded_is_marked(
    bytes: Seq<u8>,
    protocol_id: u64,
    now: u64,
    later: u64,
    key: Seq<u8>,
    window: ReplayView,
    allowed: u8,
    later_allowed: u8,
)
    requires
        PacketView::decode(bytes, protocol_id, now, key, window, allowed) is Ok,
        !(PacketView::decode(bytes, protocol_id, now, key, window, allowed)->Ok_0.0 is Request),
    ensures
        ({
            let marked = PacketView::decode(bytes, protocol_id, now, key, window, allowed)->Ok_0.1;
            &&& window_grows(window, marked)
            &&& PacketView::decode(bytes, protocol_id, later, key, marked, later_allowed)
                matches Err(Error::Replay(_, _))
        }),
{
}

/// A mask that does not hold the request kind lets no request through.
pub proof fn lemma_masked_request_fails(
    bytes: Seq<u8>,
    protocol_id: u64,
    now: u64,
    key: Seq<u8>,
    window: ReplayView,
    allowed: u8,
)
    requires
        !mask_allows(allowed, REQUEST),
        PacketView::decode(bytes, protocol_id, now, key, window, allowed) is Ok,
    ensures
        !(PacketView::decode(bytes, protocol_id, now, key, window, allowed)->Ok_0.0 is Request),
{
}

/// The client's mask does not hold the request kind.
pub proof fn lemma_requests_are_not_allowed()
    ensures
        !mask_allows(ALLOWED_PACKETS, REQUEST),
{
    assert(0x76u8 & (1u8 << 0u8) == 0) by (bit_vector);
}

/// A datagram leaves the token and the settings alone, and a window that
/// refuses whatever the window before it refused. The datagram itself is
/// dropped from then on.
pub proof fn lemma_recv_packet_marks(client: ClientView, datagram: Seq<u8>, now: u64)
    ensures
        ({
            let after = client.recv_packet(datagram, now).client;
            &&& after.token == client.token
            &&& window_grows(client.replay, after.replay)
            &&& is_dropped(after, datagram)
        }),
{
    lemma_requests_are_not_allowed();
    let after = client.recv_packet(datagram, now).client;
    let decoded = PacketView::decode(
        datagram,
        client.token.protocol_id,
        now,
        client.token.server_to_client_key,
        client.replay,
        ALLOWED_PACKETS,
    );
    if datagram.len() > 1 {
        assert forall|later: u64| #[trigger]
            PacketView::decode(
                datagram,
                after.token.protocol_id,
                later,
                after.token.server_to_client_key,
                after.replay,
                ALLOWED_PACKETS,
            ) is Err by {
            if decoded is Ok {
                lemma_masked_request_fails(
                    datagram,
                    client.token.protocol_id,
                    now,
                    client.token.server_to_client_key,
                    client.replay,
                    ALLOWED_PACKETS,
                );
                lemma_decoded_is_marked(
                    datagram,
                    client.token.protocol_id,
                    now,
                    later,
                    client.token.server_to_client_key,
                    client.replay,
                    ALLOWED_PACKETS,
                    ALLOWED_PACKETS,
                );
            } else {
                lemma_decode_failure_is_stable(
                    datagram,
                    client.token.protocol_id,
                    now,
                    later,
                    client.token.server_to_client_key,
                    client.replay,
                    client.replay,
                    ALLOWED_PACKETS,
                );
            }
        }
    }
    if decoded is Ok && datagram.len() > 1 {
        lemma_masked_request_fails(
            datagram,
            client.token.protocol_id,
            now,
            client.token.server_to_client_key,
            client.replay,
            ALLOWED_PACKETS,
        );
        lemma_decoded_is_marked(
            datagram,
            client.token.protocol_id,
            now,
            now,
            client.token.server_to_client_key,
            client.replay,
            ALLOWED_PACKETS,
            ALLOWED_PACKETS,
        );
    }
}

/// A datagram that is dropped stays dropped whatever else arrives.
pub proof fn lemma_dropped_stays_dropped(
    client: ClientView,
    datagram: Seq<u8>,
    between: Seq<Seq<u8>>,
    now: u64,
)
    requires
        is_dropped(client, datagram),
    ensures
        ({
            let after = client.recv_packets(between, now).client;
            &&& after.token == client.token
            &&& window_grows(client.replay, after.replay)
            &&& is_dropped(after, datagram)
        }),
    decreases between.len(),
{
    lemma_requests_are_not_allowed();
    if between.len() > 0 {
        lemma_dropped_stays_dropped(client, datagram, between.drop_last(), now);
        let before = client.recv_packets(between.drop_last(), now).client;
        let after = client.recv_packets(between, now).client;
        lemma_recv_packet_marks(before, between.last(), now);
        assert(after == before.recv_packet(between.last(), now).client);
        assert(window_grows(client.replay, after.replay)) by {
            assert forall|s: u64| client.replay.rejects(s) implies #[trigger] after.replay.rejects(
                s,
            ) by {
                assert(before.replay.rejects(s));
            }
        }
        if datagram.len() > 1 {
            assert forall|later: u64| #[trigger]
                PacketView::decode(
                    datagram,
                    after.token.protocol_id,
                    later,
                    after.token.server_to_client_key,
                    after.replay,
                    ALLOWED_PACKETS,
                ) is Err by {
                assert(PacketView::decode(
                    datagram,
                    before.token.protocol_id,
                    later,
                    before.token.server_to_client_key,
                    before.replay,
                    ALLOWED_PACKETS,
                ) is Err);
                lemma_decode_failure_is_stable(
                    datagram,
                    before.token.protocol_id,
                    later,
                    later,
                    before.token.server_to_client_key,
                    before.replay,
                    after.replay,
                    ALLOWED_PACKETS,
                );
            }
        }
    }
}

/// A datagram that was offered to the client once, put to
/// it again after any number of other datagrams, changes nothing and hands
/// nothing on to the host.
pub proof fn lemma_replay_changes_nothing(
    client: ClientView,
    datagram: Seq<u8>,
    between: Seq<Seq<u8>>,
    first: u64,
    then: u64,
    again: u64,
)
    ensures
        ({
            let offered = client.recv_packet(datagram, first).client;
            let later = offered.recv_packets(between, then).client;
            later.recv_packet(datagram, again) == Received { client: later, payload: None }
        }),
{
    let offered = client.recv_packet(datagram, first).client;
    lemma_recv_packet_marks(client, datagram, first);
    lemma_dropped_stays_dropped(offered, datagram, between, then);
    let later = offered.recv_packets(between, then).client;
    if datagram.len() > 1 {
        assert(PacketView::decode(
            datagram,
            later.token.protocol_id,
            again,
            later.token.server_to_client_key,
            later.replay,
            ALLOWED_PACKETS,
        ) is Err);
    }
}

/// A datagram hands a payload on to the host only if the client
/// is connected when it arrives, and the client is connected afterwards.
pub proof fn lemma_payload_only_while_connected(client: ClientView, datagram: Seq<u8>, now: u64)
    ensures
        client.recv_packet(datagram, now).payload is Some ==> client.state
            == ClientState::Connected,
        client.state == ClientState::Connected ==> client.recv_packet(datagram, now).client.state
            == ClientState::Connected,
{
}

/// The same for a whole queue: where any payload is handed on to the
/// host, the client is connected once the queue is drained.
pub proof fn lemma_payloads_only_while_connected(
    client: ClientView,
    inbound: Seq<Seq<u8>>,
    now: u64,
)
    ensures
        client.recv_packets(inbound, now).payloads.len() > 0 ==> client.recv_packets(
            inbound,
            now,
        ).client.state == ClientState::Connected,
        client.state == ClientState::Connected ==> client.recv_packets(inbound, now).client.state
            == ClientState::Connected,
    decreases inbound.len(),
{
    if inbound.len() > 0 {
        lemma_payloads_only_while_connected(client, inbound.drop_last(), now);
        let before = client.recv_packets(inbound.drop_last(), now);
        lemma_payload_only_while_connected(before.client, inbound.last(), now);
    }
}


/// The record after each of `packets` was put on the send queue in turn.
pub open spec fn send_all(client: ClientView, packets: Seq<PacketView>) -> ClientView
    decreases packets.len(),
{
    if packets.len() == 0 {
        client
    } else {
        send_all(client, packets.drop_last()).send_netcode_packet(packets.last())
    }
}

/// Packets that are sent one after the other, with no
/// reset between them, carry sequence numbers that go up by one from packet
/// to packet, so that a later packet always carries a higher number than an
/// earlier one.
pub proof fn lemma_sequence_numbers_increase(client: ClientView, packets: Seq<PacketView>)
    requires
        client.sequence + packets.len() <= u64::MAX,
    ensures
        send_all(client, packets).sequence == client.sequence + packets.len(),
        send_all(client, packets).send_queue == client.send_queue + Seq::new(
            packets.len(),
            |i: int|
                packets[i].encode(
                    (client.sequence + i) as u64,
                    client.token.client_to_server_key,
                    client.token.protocol_id,
                ),
        ),
        send_all(client, packets).token == client.token,
    decreases packets.len(),
{
    let sent = Seq::new(
        packets.len(),
        |i: int|
            packets[i].encode(
                (client.sequence + i) as u64,
                client.token.client_to_server_key,
                client.token.protocol_id,
            ),
    );
    if packets.len() == 0 {
        assert(client.send_queue =~= client.send_queue + sent);
    } else {
        let front = packets.drop_last();
        lemma_sequence_numbers_increase(client, front);
        assert(send_all(client, packets).send_queue =~= client.send_queue + sent);
    }
}

/// What a tick is given: the time that has passed, the datagrams that have
/// arrived, and the time of day.
pub struct Tick {
    pub delta: u64,
    pub inbound: Seq<Seq<u8>>,
    pub now: u64,
}

impl ClientView {
    /// The record in the middle of a tick, once time has moved on and the
    /// inbound datagrams were taken in.
    pub open spec fn after_inbound(self, tick: Tick) -> ClientView {
        self.advance(tick.delta).recv_packets(tick.inbound, tick.now).client
    }

    /// The record at the end of a tick.
    pub open spec fn after_tick(self, tick: Tick) -> ClientView {
        self.tick(tick.delta, tick.inbound, tick.now).client
    }

    /// Whether a tick sends a periodic packet.
    pub open spec fn emits(self, tick: Tick) -> bool {
        self.after_inbound(tick).periodic_due() && self.after_inbound(tick).sequence < u64::MAX
    }

    /// Whether a tick ends with a failover to the next server.
    pub open spec fn fails_over(self, tick: Tick) -> bool {
        self.after_tick(tick).server_addr_idx == self.server_addr_idx + 1
    }

    /// Whether a tick starts the connection timing over, by a failover or by
    /// a fall back to an idle or error state.
    pub open spec fn restarts(self, tick: Tick) -> bool {
        let sent = self.after_inbound(tick).send_packets();
        !self.tick_fails(tick.delta, tick.inbound, tick.now) && sent.update_state() != sent
    }
}

/// The record after a run of ticks.
pub open spec fn run(client: ClientView, ticks: Seq<Tick>) -> ClientView
    decreases ticks.len(),
{
    if ticks.len() == 0 {
        client
    } else {
        run(client, ticks.drop_last()).after_tick(ticks.last())
    }
}

/// Whether the client is active after every tick of a run: no tick lets it
/// fall back to an idle or error state.
pub open spec fn stays_active(client: ClientView, ticks: Seq<Tick>) -> bool {
    forall|k: int| 1 <= k <= ticks.len() ==> (#[trigger] run(client, ticks.take(k))).is_active()
}

/// Number of failovers in a run of ticks.
pub open spec fn failovers(client: ClientView, ticks: Seq<Tick>) -> nat
    decreases ticks.len(),
{
    if ticks.len() == 0 {
        0
    } else {
        failovers(client, ticks.drop_last()) + if run(client, ticks.drop_last()).fails_over(
            ticks.last(),
        ) {
            1nat
        } else {
            0nat
        }
    }
}

/// Taking in datagrams keeps a consistent record consistent, and changes
/// neither the token, the settings, the address cursor, the sequence counter,
/// the times of the clock and of the last send, nor the send queue. What is
/// on record of state changes stays on record.
pub proof fn lemma_recv_packets_keeps(client: ClientView, inbound: Seq<Seq<u8>>, now: u64)
    requires
        client.wf(),
    ensures
        ({
            let after = client.recv_packets(inbound, now).client;
            &&& after.wf()
            &&& after.token == client.token
            &&& after.packet_send_rate == client.packet_send_rate
            &&& after.num_disconnect_packets == client.num_disconnect_packets
            &&& after.server_addr_idx == client.server_addr_idx
            &&& after.sequence == client.sequence
            &&& after.time == client.time
            &&& after.start_time == client.start_time
            &&& after.last_send_time == client.last_send_time
            &&& after.send_queue == client.send_queue
            &&& client.is_active() ==> after.is_active()
            &&& !client.is_active() ==> after.state == client.state
            &&& client.transitions.is_prefix_of(after.transitions)
        }),
    decreases inbound.len(),
{
    if inbound.len() > 0 {
        lemma_recv_packets_keeps(client, inbound.drop_last(), now);
        let before = client.recv_packets(inbound.drop_last(), now).client;
        let after = client.recv_packets(inbound, now).client;
        assert(before.transitions.is_prefix_of(after.transitions));
        let decoded = PacketView::decode(
            inbound.last(),
            before.token.protocol_id,
            now,
            before.token.server_to_client_key,
            before.replay,
            ALLOWED_PACKETS,
        );
        if inbound.last().len() > 1 && decoded is Ok {
            lemma_decoded_packet_is_well_formed(
                inbound.last(),
                before.token.protocol_id,
                now,
                before.token.server_to_client_key,
                before.replay,
                ALLOWED_PACKETS,
            );
            lemma_process_packet_keeps_wf(
                ClientView { replay: decoded->Ok_0.1, ..before },
                decoded->Ok_0.0,
            );
        }
    }
}

/// A packet that decodes is well-formed.
pub proof fn lemma_decoded_packet_is_well_formed(
    bytes: Seq<u8>,
    protocol_id: u64,
    now: u64,
    key: Seq<u8>,
    window: ReplayView,
    allowed: u8,
)
    requires
        PacketView::decode(bytes, protocol_id, now, key, window, allowed) is Ok,
    ensures
        PacketView::decode(bytes, protocol_id, now, key, window, allowed)->Ok_0.0.wf(),
{
}

/// One tick keeps a consistent record consistent, and leaves the token and
/// the settings alone. It leaves the address cursor where it is, or moves it
/// on by one (a failover), or returns it to the start as the client falls
/// back to an idle or error state. What is on record of state changes stays
/// on record.
pub proof fn lemma_tick_step(client: ClientView, tick: Tick)
    requires
        client.wf(),
    ensures
        ({
            let after = client.after_tick(tick);
            &&& after.wf()
            &&& after.token == client.token
            &&& after.packet_send_rate == client.packet_send_rate
            &&& after.num_disconnect_packets == client.num_disconnect_packets
            &&& {
                ||| after.server_addr_idx == client.server_addr_idx
                ||| after.server_addr_idx == client.server_addr_idx + 1 && after.state
                    == ClientState::SendingConnectionRequest
                ||| after.server_addr_idx == 0 && !after.is_active()
            }
            &&& !client.is_active() ==> !after.is_active()
            &&& client.transitions.is_prefix_of(after.transitions)
        }),
{
    let sent = client.after_inbound(tick).send_packets();
    assert(sent.transitions.is_prefix_of(sent.update_state().transitions));
    lemma_recv_packets_keeps(client.advance(tick.delta), tick.inbound, tick.now);
    lemma_update_state_keeps_wf(client.after_inbound(tick).send_packets());
}

/// A client that is neither connecting nor connected rests: a tick moves its
/// clock on and takes the inbound datagrams away, and does nothing else. It
/// tries no server and sends nothing.
pub proof fn lemma_resting_client_rests(client: ClientView, tick: Tick)
    requires
        client.wf(),
        !client.is_active(),
    ensures
        client.after_tick(tick) == (ClientView {
            time: client.advance(tick.delta).time,
            replay: client.after_tick(tick).replay,
            ..client
        }),
        client.tick(tick.delta, tick.inbound, tick.now).payloads.len() == 0,
{
    lemma_resting_client_drops(client.advance(tick.delta), tick.inbound, tick.now);
}

/// A client that is neither connecting nor connected lets no datagram change
/// anything but its replay window, and hands nothing on to the host.
pub proof fn lemma_resting_client_drops(client: ClientView, inbound: Seq<Seq<u8>>, now: u64)
    requires
        !client.is_active(),
    ensures
        client.recv_packets(inbound, now).client == (ClientView {
            replay: client.recv_packets(inbound, now).client.replay,
            ..client
        }),
        client.recv_packets(inbound, now).payloads.len() == 0,
    decreases inbound.len(),
{
    if inbound.len() > 0 {
        lemma_resting_client_drops(client, inbound.drop_last(), now);
    }
}

/// A tick cannot fail while a sequence number is left.
pub proof fn lemma_tick_succeeds_with_sequence_left(client: ClientView, tick: Tick)
    requires
        client.wf(),
        client.sequence < u64::MAX,
    ensures
        !client.tick_fails(tick.delta, tick.inbound, tick.now),
{
    lemma_recv_packets_keeps(client.advance(tick.delta), tick.inbound, tick.now);
}

/// A run of ticks keeps a consistent record consistent, and leaves the token
/// and the settings alone.
pub proof fn lemma_run_keeps(client: ClientView, ticks: Seq<Tick>)
    requires
        client.wf(),
    ensures
        run(client, ticks).wf(),
        run(client, ticks).token == client.token,
        run(client, ticks).packet_send_rate == client.packet_send_rate,
    decreases ticks.len(),
{
    if ticks.len() > 0 {
        lemma_run_keeps(client, ticks.drop_last());
        lemma_tick_step(run(client, ticks.drop_last()), ticks.last());
    }
}

/// While the client stays active, the address cursor only
/// moves forward, by one server for each failover, and stays inside the
/// token's list. So a run of ticks tries every server of the list at most
/// once, and makes fewer failovers than the list has servers.
pub proof fn lemma_failover_bound(client: ClientView, ticks: Seq<Tick>)
    requires
        client.wf(),
        stays_active(client, ticks),
    ensures
        run(client, ticks).server_addr_idx == client.server_addr_idx + failovers(client, ticks),
        run(client, ticks).server_addr_idx < client.token.server_addresses.len(),
        failovers(client, ticks) < client.token.server_addresses.len(),
    decreases ticks.len(),
{
    lemma_run_keeps(client, ticks);
    if ticks.len() > 0 {
        let front = ticks.drop_last();
        assert(stays_active(client, front)) by {
            assert forall|k: int| 1 <= k <= front.len() implies (#[trigger] run(
                client,
                front.take(k),
            )).is_active() by {
                assert(front.take(k) =~= ticks.take(k));
            }
        }
        lemma_failover_bound(client, front);
        lemma_run_keeps(client, front);
        lemma_tick_step(run(client, front), ticks.last());
        assert(ticks.take(ticks.len() as int) =~= ticks);
        assert(run(client, ticks).is_active());
    }
}


/// The run up to and with tick `k` is the run up to it, then that tick.
proof fn lemma_run_unfolds(client: ClientView, ticks: Seq<Tick>, k: int)
    requires
        0 <= k < ticks.len(),
    ensures
        run(client, ticks.take(k + 1)) == run(client, ticks.take(k)).after_tick(ticks[k]),
{
    assert(ticks.take(k + 1).drop_last() =~= ticks.take(k));
    assert(ticks.take(k + 1).last() == ticks[k]);
}

/// After a tick that sent a periodic packet, and as long as no tick starts
/// the connection timing over, the last send is recorded at the time of that
/// packet or later.
proof fn lemma_last_send_is_kept(client: ClientView, ticks: Seq<Tick>, i: int, m: int)
    requires
        client.wf(),
        0 <= i < m <= ticks.len(),
        run(client, ticks.take(i)).emits(ticks[i]),
        forall|k: int| i <= k < m ==> !(#[trigger] run(client, ticks.take(k))).restarts(ticks[k]),
    ensures
        match run(client, ticks.take(m)).last_send_time {
            Some(t) => t >= run(client, ticks.take(i)).after_inbound(ticks[i]).time,
            None => false,
        },
    decreases m - i,
{
    let before = run(client, ticks.take(m - 1));
    let tick = ticks[m - 1];
    lemma_run_unfolds(client, ticks, m - 1);
    lemma_run_keeps(client, ticks.take(m - 1));
    lemma_recv_packets_keeps(before.advance(tick.delta), tick.inbound, tick.now);
    assert(!before.restarts(tick));
    if m - 1 > i {
        lemma_last_send_is_kept(client, ticks, i, m - 1);
    }
}

/// Between two ticks that each send a periodic packet,
/// with no tick from the first to the second that starts the connection
/// timing over, the clock moves on by more than the send rate.
pub proof fn lemma_send_rate(client: ClientView, ticks: Seq<Tick>, i: int, j: int)
    requires
        client.wf(),
        0 <= i < j < ticks.len(),
        run(client, ticks.take(i)).emits(ticks[i]),
        run(client, ticks.take(j)).emits(ticks[j]),
        forall|k: int| i <= k < j ==> !(#[trigger] run(client, ticks.take(k))).restarts(ticks[k]),
    ensures
        run(client, ticks.take(j)).after_inbound(ticks[j]).time - run(
            client,
            ticks.take(i),
        ).after_inbound(ticks[i]).time > client.packet_send_rate,
{
    lemma_last_send_is_kept(client, ticks, i, j);
    let before = run(client, ticks.take(j));
    let tick = ticks[j];
    lemma_run_keeps(client, ticks.take(j));
    lemma_recv_packets_keeps(before.advance(tick.delta), tick.inbound, tick.now);
}

} // verus!
