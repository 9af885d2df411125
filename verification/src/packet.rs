//! The packets of the protocol and their form on the wire.
//!
//! A connection request travels in the clear. Every other packet is a prefix
//! byte (the kind in the low four bits, the number of sequence bytes in the
//! high four), the sequence number in as few little-endian bytes as hold it,
//! and the body sealed under the key of its direction.

use vstd::prelude::*;
use vstd::bytes::{
    lemma_auto_spec_u32_to_from_le_bytes, lemma_auto_spec_u64_to_from_le_bytes,
    spec_u32_to_le_bytes, spec_u64_from_le_bytes, spec_u64_to_le_bytes,
    spec_u64_to_le_bytes_to_open, u64_from_le_bytes,
};
use crate::crypto::{decrypt, encrypt, opened, sealed};
use crate::error::{Error, TokenError};
use crate::replay::{ReplayProtection, ReplayView};
use crate::token::{CHALLENGE_TOKEN_SIZE, PRIVATE_DATA_SIZE, TOKEN_NONCE_SIZE};
use crate::wire::{get_array, get_u32, get_u64, put_u32, put_u64, u32_at, u64_at};
use crate::{MAC_SIZE, MAX_PACKET_SIZE, MAX_PKT_BUF_SIZE};

verus! {

/// Kind tag of a connection request.
pub const REQUEST: u8 = 0;

/// Kind tag of a denial.
pub const DENIED: u8 = 1;

/// Kind tag of a challenge.
pub const CHALLENGE: u8 = 2;

/// Kind tag of a challenge response.
pub const RESPONSE: u8 = 3;

/// Kind tag of a keep-alive.
pub const KEEP_ALIVE: u8 = 4;

/// Kind tag of a payload.
pub const PAYLOAD: u8 = 5;

/// Kind tag of a disconnect.
pub const DISCONNECT: u8 = 6;

/// Length, in bytes, of a connection request behind its prefix byte.
pub const REQUEST_BODY_SIZE: usize = 1064;

/// Length, in bytes, of the body of a challenge or of a response.
pub const CHALLENGE_BODY_SIZE: usize = 308;

/// Length, in bytes, of the body of a keep-alive.
pub const KEEP_ALIVE_BODY_SIZE: usize = 12;

/// Asks a server for a connection; carries the sealed private data of the
/// connect token.
#[derive(Debug, Clone, PartialEq, Eq)]
pub struct RequestPacket {
    pub protocol_id: u64,
    pub expire_timestamp: u64,
    pub nonce: [u8; TOKEN_NONCE_SIZE],
    pub private_data: [u8; PRIVATE_DATA_SIZE],
}

/// Tells a client that the server refuses it.
#[derive(Debug, Clone, PartialEq, Eq)]
pub struct DeniedPacket {
    pub reason: u8,
}

/// Challenges a client to prove that it receives what is sent to it.
#[derive(Debug, Clone, PartialEq, Eq)]
pub struct ChallengePacket {
    pub sequence: u64,
    pub token: [u8; CHALLENGE_TOKEN_SIZE],
}

/// Echoes a challenge back to the server.
#[derive(Debug, Clone, PartialEq, Eq)]
pub struct ResponsePacket {
    pub sequence: u64,
    pub token: [u8; CHALLENGE_TOKEN_SIZE],
}

/// Keeps a connection alive; from the server it also tells the client its id.
#[derive(Debug, Clone, PartialEq, Eq)]
pub struct KeepAlivePacket {
    pub client_id: u64,
    pub max_clients: u32,
}

/// Carries application data.
#[derive(Debug, Clone, PartialEq, Eq)]
pub struct PayloadPacket {
    pub buf: Vec<u8>,
}

/// Ends a connection.
#[derive(Debug, Clone, PartialEq, Eq)]
pub struct DisconnectPacket {}

/// A packet of any kind.
#[derive(Debug, Clone, PartialEq, Eq)]
pub enum Packet {
    Request(RequestPacket),
    Denied(DeniedPacket),
    Challenge(ChallengePacket),
    Response(ResponsePacket),
    KeepAlive(KeepAlivePacket),
    Payload(PayloadPacket),
    Disconnect(DisconnectPacket),
}

/// A packet as a mathematical value.
pub enum PacketView {
    Request { protocol_id: u64, expire_timestamp: u64, nonce: Seq<u8>, private_data: Seq<u8> },
    Denied { reason: u8 },
    Challenge { sequence: u64, token: Seq<u8> },
    Response { sequence: u64, token: Seq<u8> },
    KeepAlive { client_id: u64, max_clients: u32 },
    Payload { buf: Seq<u8> },
    Disconnect,
}

impl View for Packet {
    type V = PacketView;

    open spec fn view(&self) -> PacketView {
        match *self {
            Packet::Request(p) => PacketView::Request {
                protocol_id: p.protocol_id,
                expire_timestamp: p.expire_timestamp,
                nonce: p.nonce@,
                private_data: p.private_data@,
            },
            Packet::Denied(p) => PacketView::Denied { reason: p.reason },
            Packet::Challenge(p) => PacketView::Challenge { sequence: p.sequence, token: p.token@ },
            Packet::Response(p) => PacketView::Response { sequence: p.sequence, token: p.token@ },
            Packet::KeepAlive(p) => PacketView::KeepAlive {
                client_id: p.client_id,
                max_clients: p.max_clients,
            },
            Packet::Payload(p) => PacketView::Payload { buf: p.buf@ },
            Packet::Disconnect(p) => PacketView::Disconnect,
        }
    }
}

/// Number of bytes that a sequence number takes on the wire: as few as hold
/// it, and at least one.
pub open spec fn sequence_len(sequence: u64) -> nat {
    if sequence < 0x100 {
        1
    } else if sequence < 0x1_0000 {
        2
    } else if sequence < 0x100_0000 {
        3
    } else if sequence < 0x1_0000_0000 {
        4
    } else if sequence < 0x100_0000_0000 {
        5
    } else if sequence < 0x1_0000_0000_0000 {
        6
    } else if sequence < 0x100_0000_0000_0000 {
        7
    } else {
        8
    }
}

/// A sequence number on the wire: its low bytes, little-endian.
pub open spec fn sequence_bytes(sequence: u64) -> Seq<u8> {
    spec_u64_to_le_bytes(sequence).take(sequence_len(sequence) as int)
}

/// The sequence number that up to eight little-endian bytes stand for.
pub open spec fn sequence_of(bytes: Seq<u8>) -> u64 {
    spec_u64_from_le_bytes(bytes + Seq::new((8 - bytes.len()) as nat, |i: int| 0u8))
}

/// The prefix byte of a sealed packet.
pub open spec fn prefix_of(kind: u8, sequence: u64) -> u8 {
    ((sequence_len(sequence) as u8) << 4) | kind
}

/// Whether a mask of accepted kinds holds the bit of `kind`.
pub open spec fn mask_allows(allowed: u8, kind: u8) -> bool {
    allowed & (1u8 << kind) != 0
}

impl PacketView {
    /// Every byte field has its fixed length, and a payload is not larger
    /// than the protocol allows.
    pub open spec fn wf(self) -> bool {
        match self {
            PacketView::Request { protocol_id, expire_timestamp, nonce, private_data } => {
                nonce.len() == TOKEN_NONCE_SIZE && private_data.len() == PRIVATE_DATA_SIZE
            },
            PacketView::Challenge { sequence, token } => token.len() == CHALLENGE_TOKEN_SIZE,
            PacketView::Response { sequence, token } => token.len() == CHALLENGE_TOKEN_SIZE,
            PacketView::Payload { buf } => buf.len() <= MAX_PACKET_SIZE,
            _ => true,
        }
    }

    /// The kind tag.
    pub open spec fn kind(self) -> u8 {
        match self {
            PacketView::Request { .. } => REQUEST,
            PacketView::Denied { .. } => DENIED,
            PacketView::Challenge { .. } => CHALLENGE,
            PacketView::Response { .. } => RESPONSE,
            PacketView::KeepAlive { .. } => KEEP_ALIVE,
            PacketView::Payload { .. } => PAYLOAD,
            PacketView::Disconnect => DISCONNECT,
        }
    }

    /// The packet's content as bytes, before any sealing.
    pub open spec fn body(self) -> Seq<u8> {
        match self {
            PacketView::Request { protocol_id, expire_timestamp, nonce, private_data } => {
                spec_u64_to_le_bytes(protocol_id) + spec_u64_to_le_bytes(expire_timestamp) + nonce
                    + private_data
            },
            PacketView::Denied { reason } => seq![reason],
            PacketView::Challenge { sequence, token } => spec_u64_to_le_bytes(sequence) + token,
            PacketView::Response { sequence, token } => spec_u64_to_le_bytes(sequence) + token,
            PacketView::KeepAlive { client_id, max_clients } => spec_u64_to_le_bytes(client_id)
                + spec_u32_to_le_bytes(max_clients),
            PacketView::Payload { buf } => buf,
            PacketView::Disconnect => Seq::empty(),
        }
    }

    /// The length that the body of a packet of this kind must have; a payload
    /// may be shorter than the length given for it.
    pub open spec fn body_size(kind: u8) -> usize {
        if kind == REQUEST {
            REQUEST_BODY_SIZE
        } else if kind == DENIED {
            1
        } else if kind == CHALLENGE || kind == RESPONSE {
            CHALLENGE_BODY_SIZE
        } else if kind == KEEP_ALIVE {
            KEEP_ALIVE_BODY_SIZE
        } else if kind == PAYLOAD {
            MAX_PACKET_SIZE
        } else {
            0
        }
    }

    /// Whether a body of `len` bytes fits a packet of this kind.
    pub open spec fn body_fits(kind: u8, len: nat) -> bool {
        if kind == PAYLOAD {
            len <= MAX_PACKET_SIZE
        } else {
            len == Self::body_size(kind)
        }
    }

    /// The packet of kind `kind` (at most [`DISCONNECT`]) that a body stands
    /// for, or a size mismatch where the body does not fit the kind.
    pub open spec fn from_body(kind: u8, body: Seq<u8>) -> Result<PacketView, Error> {
        if !Self::body_fits(kind, body.len()) {
            Err(Error::SizeMismatch(Self::body_size(kind), body.len() as usize))
        } else if kind == REQUEST {
            Ok(
                PacketView::Request {
                    protocol_id: u64_at(body, 0),
                    expire_timestamp: u64_at(body, 8),
                    nonce: body.subrange(16, 40),
                    private_data: body.subrange(40, 1064),
                },
            )
        } else if kind == DENIED {
            Ok(PacketView::Denied { reason: body[0] })
        } else if kind == CHALLENGE {
            Ok(PacketView::Challenge { sequence: u64_at(body, 0), token: body.subrange(8, 308) })
        } else if kind == RESPONSE {
            Ok(PacketView::Response { sequence: u64_at(body, 0), token: body.subrange(8, 308) })
        } else if kind == KEEP_ALIVE {
            Ok(
                PacketView::KeepAlive {
                    client_id: u64_at(body, 0),
                    max_clients: u32_at(body, 8),
                },
            )
        } else if kind == PAYLOAD {
            Ok(PacketView::Payload { buf: body })
        } else {
            Ok(PacketView::Disconnect)
        }
    }

    /// The packet on the wire, sent as number `sequence` under `key`.
    pub open spec fn encode(self, sequence: u64, key: Seq<u8>, protocol_id: u64) -> Seq<u8> {
        if self.kind() == REQUEST {
            seq![REQUEST] + self.body()
        } else {
            let prefix = prefix_of(self.kind(), sequence);
            seq![prefix] + sequence_bytes(sequence) + sealed(
                key,
                sequence,
                protocol_id,
                prefix,
                self.body(),
            )
        }
    }

    /// What a datagram decodes to, and the replay window afterwards.
    ///
    /// The kind in the prefix byte must be known. A request must have its
    /// exact size and a token that has not expired at `now`. Any other packet
    /// must carry between one and eight sequence bytes and room for a tag;
    /// its sequence number must pass the replay window, its body must open
    /// under the key and fit its kind. Then the kind must be in the mask.
    /// Only a packet that passes all of this marks its sequence number in the
    /// window.
    pub open spec fn decode(
        bytes: Seq<u8>,
        protocol_id: u64,
        now: u64,
        key: Seq<u8>,
        window: ReplayView,
        allowed: u8,
    ) -> Result<(PacketView, ReplayView), Error> {
        let prefix = bytes[0];
        let kind = prefix & 0xf;
        let count = (prefix >> 4) as int;
        if bytes.len() < 1 {
            Err(Error::SizeMismatch(1, 0))
        } else if kind > DISCONNECT {
            Err(Error::UnknownPacketType(kind))
        } else if kind == REQUEST {
            match Self::from_body(kind, bytes.skip(1)) {
                Err(e) => Err(e),
                Ok(packet) => if packet->Request_expire_timestamp <= now {
                    Err(Error::InvalidToken(TokenError::Expired))
                } else if !mask_allows(allowed, kind) {
                    Err(Error::DisallowedPacketType(kind))
                } else {
                    Ok((packet, window))
                },
            }
        } else if count < 1 || count > 8 {
            Err(Error::SizeMismatch(8, count as usize))
        } else if bytes.len() < 1 + count + MAC_SIZE {
            Err(Error::SizeMismatch((1 + count + MAC_SIZE) as usize, bytes.len() as usize))
        } else {
            let sequence = sequence_of(bytes.subrange(1, 1 + count));
            if window.rejects(sequence) {
                Err(Error::Replay(sequence, window.highest))
            } else {
                match opened(key, sequence, protocol_id, prefix, bytes.skip(1 + count)) {
                    None => Err(Error::Crypto),
                    Some(body) => match Self::from_body(kind, body) {
                        Err(e) => Err(e),
                        Ok(packet) => if !mask_allows(allowed, kind) {
                            Err(Error::DisallowedPacketType(kind))
                        } else {
                            Ok((packet, window.accept(sequence)))
                        },
                    },
                }
            }
        }
    }
}


/// The kind and the count of sequence bytes are read back from the prefix
/// byte that was made of them.
pub proof fn lemma_prefix_round_trip(kind: u8, sequence: u64)
    requires
        kind <= DISCONNECT,
    ensures
        prefix_of(kind, sequence) & 0xf == kind,
        (prefix_of(kind, sequence) >> 4) == sequence_len(sequence),
        1 <= sequence_len(sequence) <= 8,
{
    let count = sequence_len(sequence) as u8;
    assert(1 <= count <= 8 && kind <= 6 ==> ((count << 4) | kind) & 0xf == kind && ((count << 4)
        | kind) >> 4 == count) by (bit_vector);
}

/// A sequence number is read back from the bytes that it was written as.
pub proof fn lemma_sequence_round_trip(sequence: u64)
    ensures
        sequence_bytes(sequence).len() == sequence_len(sequence),
        sequence_of(sequence_bytes(sequence)) == sequence,
{
    lemma_auto_spec_u64_to_from_le_bytes();
    spec_u64_to_le_bytes_to_open(sequence);
    let s = sequence;
    assert({
        &&& (s < 0x100 ==> (s >> 8) & 0xff == 0)
        &&& (s < 0x1_0000 ==> (s >> 16) & 0xff == 0)
        &&& (s < 0x100_0000 ==> (s >> 24) & 0xff == 0)
        &&& (s < 0x1_0000_0000 ==> (s >> 32) & 0xff == 0)
        &&& (s < 0x100_0000_0000 ==> (s >> 40) & 0xff == 0)
        &&& (s < 0x1_0000_0000_0000 ==> (s >> 48) & 0xff == 0)
        &&& (s < 0x100_0000_0000_0000 ==> (s >> 56) & 0xff == 0)
    }) by (bit_vector);
    let all = spec_u64_to_le_bytes(sequence);
    let low = sequence_bytes(sequence);
    assert(low + Seq::new((8 - low.len()) as nat, |i: int| 0u8) =~= all);
}

/// A well-formed packet is read back from its body.
pub proof fn lemma_body_round_trip(packet: PacketView)
    requires
        packet.wf(),
    ensures
        PacketView::from_body(packet.kind(), packet.body()) == Ok::<PacketView, Error>(packet),
{
    lemma_auto_spec_u32_to_from_le_bytes();
    lemma_auto_spec_u64_to_from_le_bytes();
    let body = packet.body();
    match packet {
        PacketView::Request { protocol_id, expire_timestamp, nonce, private_data } => {
            assert(body.subrange(0, 8) =~= spec_u64_to_le_bytes(protocol_id));
            assert(body.subrange(8, 16) =~= spec_u64_to_le_bytes(expire_timestamp));
            assert(body.subrange(16, 40) =~= nonce);
            assert(body.subrange(40, 1064) =~= private_data);
        },
        PacketView::Denied { reason } => {},
        PacketView::Challenge { sequence, token } => {
            assert(body.subrange(0, 8) =~= spec_u64_to_le_bytes(sequence));
            assert(body.subrange(8, 308) =~= token);
        },
        PacketView::Response { sequence, token } => {
            assert(body.subrange(0, 8) =~= spec_u64_to_le_bytes(sequence));
            assert(body.subrange(8, 308) =~= token);
        },
        PacketView::KeepAlive { client_id, max_clients } => {
            assert(body.subrange(0, 8) =~= spec_u64_to_le_bytes(client_id));
            assert(body.subrange(8, 12) =~= spec_u32_to_le_bytes(max_clients));
        },
        PacketView::Payload { buf } => {},
        PacketView::Disconnect => {},
    }
}

/// Whether `packet`, sent as number `sequence`, is what `bytes` decode to
/// under every mask that holds its kind: a request at every time before its
/// expiry, leaving the window as it was; any other packet through every
/// window that does not refuse `sequence`, leaving it marked there.
pub open spec fn decodes_to(
    bytes: Seq<u8>,
    packet: PacketView,
    sequence: u64,
    key: Seq<u8>,
    protocol_id: u64,
) -> bool {
    forall|now: u64, window: ReplayView, allowed: u8|
        mask_allows(allowed, packet.kind()) && (packet is Request
            ==> now < packet->Request_expire_timestamp) && (!(packet is Request)
            ==> !window.rejects(sequence)) ==> #[trigger] PacketView::decode(
            bytes,
            protocol_id,
            now,
            key,
            window,
            allowed,
        ) == Ok::<(PacketView, ReplayView), Error>(
            (
                packet,
                if packet is Request {
                    window
                } else {
                    window.accept(sequence)
                },
            ),
        )
}

/// Decoding what a well-formed packet encodes to gives the packet back,
/// provided the sealed body opens to the body again under the same key.
pub proof fn lemma_decode_of_encode(
    packet: PacketView,
    sequence: u64,
    key: Seq<u8>,
    protocol_id: u64,
)
    requires
        packet.wf(),
        !(packet is Request) ==> opened(
            key,
            sequence,
            protocol_id,
            prefix_of(packet.kind(), sequence),
            sealed(key, sequence, protocol_id, prefix_of(packet.kind(), sequence), packet.body()),
        ) == Some(packet.body()),
    ensures
        decodes_to(packet.encode(sequence, key, protocol_id), packet, sequence, key, protocol_id),
{
    let bytes = packet.encode(sequence, key, protocol_id);
    let kind = packet.kind();
    lemma_body_round_trip(packet);
    if packet is Request {
        assert(bytes[0] == 0u8);
        assert(0u8 & 0xf == 0u8) by (bit_vector);
        assert(bytes.skip(1) =~= packet.body());
    } else {
        let prefix = prefix_of(kind, sequence);
        let count = sequence_len(sequence) as int;
        let body = sealed(key, sequence, protocol_id, prefix, packet.body());
        lemma_prefix_round_trip(kind, sequence);
        lemma_sequence_round_trip(sequence);
        assert(bytes[0] == prefix);
        assert(bytes.subrange(1, 1 + count) =~= sequence_bytes(sequence));
        assert(bytes.skip(1 + count) =~= body);
        assert(body.len() >= MAC_SIZE);
    }
}


/// Counts the bytes that a sequence number takes on the wire.
fn sequence_byte_count(sequence: u64) -> (count: u8)
    ensures
        count == sequence_len(sequence),
        1 <= count <= 8,
{
    if sequence < 0x100 {
        1
    } else if sequence < 0x1_0000 {
        2
    } else if sequence < 0x100_0000 {
        3
    } else if sequence < 0x1_0000_0000 {
        4
    } else if sequence < 0x100_0000_0000 {
        5
    } else if sequence < 0x1_0000_0000_0000 {
        6
    } else if sequence < 0x100_0000_0000_0000 {
        7
    } else {
        8
    }
}

/// Appends a sequence number in its short form.
fn write_sequence(out: &mut Vec<u8>, sequence: u64)
    ensures
        final(out)@ == old(out)@ + sequence_bytes(sequence),
        final(out)@.len() <= old(out)@.len() + 8,
{
    proof {
        lemma_auto_spec_u64_to_from_le_bytes();
    }
    let count: usize = sequence_byte_count(sequence) as usize;
    let mut all: Vec<u8> = Vec::new();
    put_u64(&mut all, sequence);
    let mut i: usize = 0;
    while i < count
        invariant
            i <= count <= 8,
            all@ == spec_u64_to_le_bytes(sequence),
            all@.len() == 8,
            out@ == old(out)@ + all@.take(i as int),
        decreases count - i,
    {
        out.push(all[i]);
        assert(out@ =~= old(out)@ + all@.take(i + 1));
        i += 1;
    }
}

/// Reads a sequence number of `count` bytes that starts at `pos`.
fn read_sequence(bytes: &[u8], pos: usize, count: usize) -> (sequence: u64)
    requires
        1 <= count <= 8,
        pos + count <= bytes.len(),
    ensures
        sequence == sequence_of(bytes@.subrange(pos as int, pos + count)),
{
    let mut padded = [0u8;8];
    let mut i: usize = 0;
    while i < count
        invariant
            i <= count <= 8,
            pos + count <= bytes.len(),
            forall|j: int| 0 <= j < i ==> padded@[j] == bytes@[pos + j],
            forall|j: int| i <= j < 8 ==> padded@[j] == 0,
        decreases count - i,
    {
        padded[i] = bytes[pos + i];
        i += 1;
    }
    assert(padded@ =~= bytes@.subrange(pos as int, pos + count) + Seq::new(
        (8 - count) as nat,
        |i: int| 0u8,
    ));
    u64_from_le_bytes(padded.as_slice())
}

impl RequestPacket {
    /// A connection request with the fields of a connect token.
    pub fn create(
        protocol_id: u64,
        expire_timestamp: u64,
        nonce: [u8; TOKEN_NONCE_SIZE],
        private_data: [u8; PRIVATE_DATA_SIZE],
    ) -> (packet: Packet)
        ensures
            packet@ == (PacketView::Request {
                protocol_id,
                expire_timestamp,
                nonce: nonce@,
                private_data: private_data@,
            }),
    {
        Packet::Request(RequestPacket { protocol_id, expire_timestamp, nonce, private_data })
    }
}

impl DeniedPacket {
    /// A denial with a reason code.
    pub fn create(reason: u8) -> (packet: Packet)
        ensures
            packet@ == (PacketView::Denied { reason }),
    {
        Packet::Denied(DeniedPacket { reason })
    }
}

impl ChallengePacket {
    /// A challenge with its sequence number and token.
    pub fn create(sequence: u64, token: [u8; CHALLENGE_TOKEN_SIZE]) -> (packet: Packet)
        ensures
            packet@ == (PacketView::Challenge { sequence, token: token@ }),
    {
        Packet::Challenge(ChallengePacket { sequence, token })
    }
}

impl ResponsePacket {
    /// The response that echoes a challenge.
    pub fn create(sequence: u64, token: [u8; CHALLENGE_TOKEN_SIZE]) -> (packet: Packet)
        ensures
            packet@ == (PacketView::Response { sequence, token: token@ }),
    {
        Packet::Response(ResponsePacket { sequence, token })
    }
}

impl KeepAlivePacket {
    /// A keep-alive that names a client and no client limit.
    pub fn create(client_id: u64) -> (packet: Packet)
        ensures
            packet@ == (PacketView::KeepAlive { client_id, max_clients: 0 }),
    {
        Packet::KeepAlive(KeepAlivePacket { client_id, max_clients: 0 })
    }
}

impl PayloadPacket {
    /// A payload packet that carries `buf`.
    pub fn create(buf: Vec<u8>) -> (packet: Packet)
        ensures
            packet@ == (PacketView::Payload { buf: buf@ }),
    {
        Packet::Payload(PayloadPacket { buf })
    }
}

impl DisconnectPacket {
    /// A disconnect packet.
    pub fn create() -> (packet: Packet)
        ensures
            packet@ == PacketView::Disconnect,
    {
        Packet::Disconnect(DisconnectPacket {  })
    }
}

impl Packet {
    /// The kind tag.
    pub fn kind(&self) -> (kind: u8)
        ensures
            kind == self@.kind(),
            kind <= DISCONNECT,
    {
        match self {
            Packet::Request(_) => REQUEST,
            Packet::Denied(_) => DENIED,
            Packet::Challenge(_) => CHALLENGE,
            Packet::Response(_) => RESPONSE,
            Packet::KeepAlive(_) => KEEP_ALIVE,
            Packet::Payload(_) => PAYLOAD,
            Packet::Disconnect(_) => DISCONNECT,
        }
    }

    /// The packet's content as bytes, before any sealing.
    fn write_body(&self) -> (body: Vec<u8>)
        ensures
            body@ == self@.body(),
    {
        let mut body: Vec<u8> = Vec::new();
        match self {
            Packet::Request(p) => {
                put_u64(&mut body, p.protocol_id);
                put_u64(&mut body, p.expire_timestamp);
                body.extend_from_slice(p.nonce.as_slice());
                body.extend_from_slice(p.private_data.as_slice());
            },
            Packet::Denied(p) => {
                body.push(p.reason);
            },
            Packet::Challenge(p) => {
                put_u64(&mut body, p.sequence);
                body.extend_from_slice(p.token.as_slice());
            },
            Packet::Response(p) => {
                put_u64(&mut body, p.sequence);
                body.extend_from_slice(p.token.as_slice());
            },
            Packet::KeepAlive(p) => {
                put_u64(&mut body, p.client_id);
                put_u32(&mut body, p.max_clients);
            },
            Packet::Payload(p) => {
                body.extend_from_slice(p.buf.as_slice());
            },
            Packet::Disconnect(_) => {},
        }
        assert(body@ =~= self@.body());
        body
    }

    /// Reads the packet of kind `kind` from its opened body: the packet that
    /// [`PacketView::from_body`] gives, or its size mismatch where the body
    /// does not fit the kind.
    pub fn read_body(kind: u8, body: &[u8]) -> (parsed: Result<Packet, Error>)
        requires
            kind <= DISCONNECT,
        ensures
            match parsed {
                Ok(packet) => PacketView::from_body(kind, body@) == Ok::<PacketView, Error>(
                    packet@,
                ),
                Err(e) => PacketView::from_body(kind, body@) == Err::<PacketView, Error>(e),
            },
    {
        let len: usize = body.len();
        if kind == REQUEST {
            if len != REQUEST_BODY_SIZE {
                return Err(Error::SizeMismatch(REQUEST_BODY_SIZE, len));
            }
            Ok(
                Packet::Request(
                    RequestPacket {
                        protocol_id: get_u64(body, 0),
                        expire_timestamp: get_u64(body, 8),
                        nonce: get_array::<TOKEN_NONCE_SIZE>(body, 16),
                        private_data: get_array::<PRIVATE_DATA_SIZE>(body, 40),
                    },
                ),
            )
        } else if kind == DENIED {
            if len != 1 {
                return Err(Error::SizeMismatch(1, len));
            }
            Ok(Packet::Denied(DeniedPacket { reason: body[0] }))
        } else if kind == CHALLENGE {
            if len != CHALLENGE_BODY_SIZE {
                return Err(Error::SizeMismatch(CHALLENGE_BODY_SIZE, len));
            }
            Ok(
                Packet::Challenge(
                    ChallengePacket {
                        sequence: get_u64(body, 0),
                        token: get_array::<CHALLENGE_TOKEN_SIZE>(body, 8),
                    },
                ),
            )
        } else if kind == RESPONSE {
            if len != CHALLENGE_BODY_SIZE {
                return Err(Error::SizeMismatch(CHALLENGE_BODY_SIZE, len));
            }
            Ok(
                Packet::Response(
                    ResponsePacket {
                        sequence: get_u64(body, 0),
                        token: get_array::<CHALLENGE_TOKEN_SIZE>(body, 8),
                    },
                ),
            )
        } else if kind == KEEP_ALIVE {
            if len != KEEP_ALIVE_BODY_SIZE {
                return Err(Error::SizeMismatch(KEEP_ALIVE_BODY_SIZE, len));
            }
            Ok(
                Packet::KeepAlive(
                    KeepAlivePacket { client_id: get_u64(body, 0), max_clients: get_u32(body, 8) },
                ),
            )
        } else if kind == PAYLOAD {
            if len > MAX_PACKET_SIZE {
                return Err(Error::SizeMismatch(MAX_PACKET_SIZE, len));
            }
            Ok(Packet::Payload(PayloadPacket { buf: vstd::slice::slice_to_vec(body) }))
        } else {
            if len != 0 {
                return Err(Error::SizeMismatch(0, len));
            }
            Ok(Packet::Disconnect(DisconnectPacket {  }))
        }
    }

    /// Serializes the packet as number `sequence` and seals it under `key`.
    ///
    /// Fails exactly on a payload larger than [`MAX_PACKET_SIZE`], with a size
    /// mismatch. Otherwise the bytes are the packet's encoding, fit a packet
    /// buffer, and decode to the packet again under the same key. The caller
    /// advances the sequence number.
    pub fn write(&self, sequence: u64, key: &[u8; 32], protocol_id: u64) -> (out: Result<
        Vec<u8>,
        Error,
    >)
        ensures
            match out {
                Ok(bytes) => {
                    &&& self@.wf()
                    &&& bytes@ == self@.encode(sequence, key@, protocol_id)
                    &&& 1 < bytes@.len() <= MAX_PKT_BUF_SIZE
                    &&& decodes_to(bytes@, self@, sequence, key@, protocol_id)
                },
                Err(e) => !self@.wf() && e == Error::SizeMismatch(
                    MAX_PACKET_SIZE,
                    self@->Payload_buf.len() as usize,
                ),
            },
    {
        if let Packet::Payload(p) = self {
            if p.buf.len() > MAX_PACKET_SIZE {
                return Err(Error::SizeMismatch(MAX_PACKET_SIZE, p.buf.len()));
            }
        }
        let kind = self.kind();
        let body = self.write_body();
        let mut bytes: Vec<u8> = Vec::new();
        proof {
            lemma_auto_spec_u32_to_from_le_bytes();
            lemma_auto_spec_u64_to_from_le_bytes();
        }
        if kind == REQUEST {
            bytes.push(REQUEST);
            bytes.extend_from_slice(body.as_slice());
            proof {
                assert(bytes@ =~= self@.encode(sequence, key@, protocol_id));
                lemma_decode_of_encode(self@, sequence, key@, protocol_id);
            }
            return Ok(bytes);
        }
        let count = sequence_byte_count(sequence);
        let prefix: u8 = (count << 4) | kind;
        bytes.push(prefix);
        write_sequence(&mut bytes, sequence);
        match encrypt(body.as_slice(), key, sequence, protocol_id, prefix) {
            Ok(sealed_body) => {
                bytes.extend_from_slice(sealed_body.as_slice());
                proof {
                    assert(bytes@ =~= self@.encode(sequence, key@, protocol_id));
                    lemma_decode_of_encode(self@, sequence, key@, protocol_id);
                }
                Ok(bytes)
            },
            Err(_) => {
                assert(false);
                Err(Error::Crypto)
            },
        }
    }

    /// Decodes a datagram: see [`PacketView::decode`]. On an error the replay
    /// window is left as it was.
    pub fn read(
        buf: &[u8],
        protocol_id: u64,
        now: u64,
        key: &[u8; 32],
        replay: &mut ReplayProtection,
        allowed: u8,
    ) -> (parsed: Result<Packet, Error>)
        requires
            old(replay).wf(),
        ensures
            final(replay).wf(),
            match parsed {
                Ok(packet) => PacketView::decode(
                    buf@,
                    protocol_id,
                    now,
                    key@,
                    old(replay)@,
                    allowed,
                ) == Ok::<(PacketView, ReplayView), Error>((packet@, final(replay)@)),
                Err(e) => PacketView::decode(buf@, protocol_id, now, key@, old(replay)@, allowed)
                    == Err::<(PacketView, ReplayView), Error>(e) && *final(replay) == *old(
                    replay,
                ),
            },
    {
        if buf.len() < 1 {
            return Err(Error::SizeMismatch(1, 0));
        }
        let prefix: u8 = buf[0];
        let kind: u8 = prefix & 0xf;
        let count: usize = (prefix >> 4) as usize;
        assert(prefix >> 4 <= 15) by (bit_vector);
        if kind > DISCONNECT {
            return Err(Error::UnknownPacketType(kind));
        }
        if kind == REQUEST {
            let rest = vstd::slice::slice_subrange(buf, 1, buf.len());
            assert(rest@ =~= buf@.skip(1));
            let packet = match Packet::read_body(kind, rest) {
                Ok(packet) => packet,
                Err(e) => {
                    return Err(e);
                },
            };
            if let Packet::Request(p) = &packet {
                if p.expire_timestamp <= now {
                    return Err(Error::InvalidToken(TokenError::Expired));
                }
            }
            if allowed & (1u8 << kind) == 0 {
                return Err(Error::DisallowedPacketType(kind));
            }
            return Ok(packet);
        }
        if count < 1 || count > 8 {
            return Err(Error::SizeMismatch(8, count));
        }
        if buf.len() < 1 + count + MAC_SIZE {
            return Err(Error::SizeMismatch(1 + count + MAC_SIZE, buf.len()));
        }
        let sequence = read_sequence(buf, 1, count);
        if replay.is_already_received(sequence) {
            return Err(Error::Replay(sequence, replay.most_recent_sequence()));
        }
        let sealed_body = vstd::slice::slice_subrange(buf, 1 + count, buf.len());
        assert(sealed_body@ =~= buf@.skip(1 + count));
        let body = match decrypt(sealed_body, key, sequence, protocol_id, prefix) {
            Ok(body) => body,
            Err(e) => {
                return Err(e);
            },
        };
        let packet = match Packet::read_body(kind, body.as_slice()) {
            Ok(packet) => packet,
            Err(e) => {
                return Err(e);
            },
        };
        if allowed & (1u8 << kind) == 0 {
            return Err(Error::DisallowedPacketType(kind));
        }
        replay.advance_sequence(sequence);
        Ok(packet)
    }
}

} // verus!
