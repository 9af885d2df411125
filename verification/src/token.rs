//! The connect token: a fixed-size blob, issued out of band, that names the
//! servers a client may contact, the keys of both directions and the time
//! limits of the handshake.

use vstd::prelude::*;
use vstd::bytes::{
    lemma_auto_spec_u16_to_from_le_bytes, lemma_auto_spec_u32_to_from_le_bytes,
    lemma_auto_spec_u64_to_from_le_bytes, spec_u16_to_le_bytes, spec_u32_to_le_bytes,
    spec_u64_to_le_bytes,
};
use crate::error::{Error, TokenError};
use crate::wire::{
    get_array, get_u16, get_u32, get_u64, put_u16, put_u32, put_u64, u16_at, u32_at, u64_at,
};
use crate::{CONNECT_TOKEN_SIZE, KEY_SIZE, MAX_SERVERS_PER_CONNECT};

verus! {

/// Length, in bytes, of the nonce under which the private data was sealed.
pub const TOKEN_NONCE_SIZE: usize = 24;

/// Length, in bytes, of the sealed private data.
pub const PRIVATE_DATA_SIZE: usize = 1024;

/// Length, in bytes, of a challenge token.
pub const CHALLENGE_TOKEN_SIZE: usize = 300;

/// Kind tag of an IPv4 address on the wire.
pub const ADDRESS_IPV4: u8 = 1;

/// Kind tag of an IPv6 address on the wire.
pub const ADDRESS_IPV6: u8 = 2;

/// Offset of the address count, which follows the fixed fields.
pub const ADDRESS_COUNT_OFFSET: usize = 1076;

/// Offset of the first server address.
pub const ADDRESS_LIST_OFFSET: usize = 1080;

/// A server endpoint.
#[derive(Debug, Clone, Copy, PartialEq, Eq)]
pub enum ServerAddr {
    /// An IPv4 address, its four octets in network order, and a port.
    V4 { octets: [u8; 4], port: u16 },
    /// An IPv6 address, its eight 16-bit groups in order, and a port.
    V6 { segments: [u16; 8], port: u16 },
}

/// A server endpoint as a mathematical value.
pub enum ServerAddrView {
    V4 { octets: Seq<u8>, port: u16 },
    V6 { segments: Seq<u16>, port: u16 },
}

impl ServerAddrView {
    /// The octets and groups have the lengths of their address family.
    pub open spec fn wf(self) -> bool {
        match self {
            ServerAddrView::V4 { octets, port } => octets.len() == 4,
            ServerAddrView::V6 { segments, port } => segments.len() == 8,
        }
    }

    /// Number of bytes that the endpoint takes on the wire.
    pub open spec fn size(self) -> int {
        match self {
            ServerAddrView::V4 { octets, port } => 7,
            ServerAddrView::V6 { segments, port } => 19,
        }
    }

    /// The endpoint on the wire: the kind tag, the address, then the port.
    pub open spec fn bytes(self) -> Seq<u8> {
        match self {
            ServerAddrView::V4 { octets, port } => seq![ADDRESS_IPV4] + octets
                + spec_u16_to_le_bytes(port),
            ServerAddrView::V6 { segments, port } => seq![ADDRESS_IPV6] + segments_bytes(segments)
                + spec_u16_to_le_bytes(port),
        }
    }
}

impl View for ServerAddr {
    type V = ServerAddrView;

    open spec fn view(&self) -> ServerAddrView {
        match *self {
            ServerAddr::V4 { octets, port } => ServerAddrView::V4 { octets: octets@, port },
            ServerAddr::V6 { segments, port } => ServerAddrView::V6 { segments: segments@, port },
        }
    }
}

/// The 16-bit groups of an IPv6 address on the wire, each little-endian.
pub open spec fn segments_bytes(segments: Seq<u16>) -> Seq<u8> {
    Seq::new(2 * segments.len(), |i: int| spec_u16_to_le_bytes(segments[i / 2])[i % 2])
}

/// The eight 16-bit groups that start at `pos`.
pub open spec fn segments_at(bytes: Seq<u8>, pos: int) -> Seq<u16> {
    Seq::new(8, |j: int| u16_at(bytes, pos + 2 * j))
}

/// A list of endpoints on the wire, one after the other.
pub open spec fn addrs_bytes(addrs: Seq<ServerAddrView>) -> Seq<u8>
    decreases addrs.len(),
{
    if addrs.len() == 0 {
        Seq::empty()
    } else {
        addrs_bytes(addrs.drop_last()) + addrs.last().bytes()
    }
}

/// The endpoint that starts at `pos`, or the kind tag that names no address
/// family.
pub open spec fn parse_addr(bytes: Seq<u8>, pos: int) -> Result<ServerAddrView, TokenError> {
    if bytes[pos] == ADDRESS_IPV4 {
        Ok(
            ServerAddrView::V4 {
                octets: bytes.subrange(pos + 1, pos + 5),
                port: u16_at(bytes, pos + 5),
            },
        )
    } else if bytes[pos] == ADDRESS_IPV6 {
        Ok(
            ServerAddrView::V6 {
                segments: segments_at(bytes, pos + 1),
                port: u16_at(bytes, pos + 17),
            },
        )
    } else {
        Err(TokenError::AddressKind(bytes[pos]))
    }
}

/// The first `count` endpoints of the list that starts at `start`, with the
/// position behind them, or the error of the first endpoint that is invalid.
pub open spec fn parse_addrs(bytes: Seq<u8>, start: int, count: nat) -> Result<
    (Seq<ServerAddrView>, int),
    TokenError,
>
    decreases count,
{
    if count == 0 {
        Ok((Seq::empty(), start))
    } else {
        match parse_addrs(bytes, start, (count - 1) as nat) {
            Err(e) => Err(e),
            Ok((addrs, pos)) => match parse_addr(bytes, pos) {
                Err(e) => Err(e),
                Ok(addr) => Ok((addrs.push(addr), pos + addr.size())),
            },
        }
    }
}

/// A parsed connect token.
#[derive(Debug, Clone, PartialEq, Eq)]
pub struct ConnectToken {
    /// Application identifier, bound into every sealed packet.
    pub protocol_id: u64,
    /// When the token was issued, in seconds since the epoch.
    pub create_timestamp: u64,
    /// When the token stops being valid, in seconds since the epoch.
    pub expire_timestamp: u64,
    /// Nonce under which the private data was sealed.
    pub nonce: [u8; TOKEN_NONCE_SIZE],
    /// Sealed data that only the server can open; forwarded verbatim.
    pub private_data: [u8; PRIVATE_DATA_SIZE],
    /// Idle timeout in seconds; none if not positive.
    pub timeout_seconds: i32,
    /// The servers to contact, in order of preference.
    pub server_addresses: Vec<ServerAddr>,
    /// Key that seals packets from client to server.
    pub client_to_server_key: [u8; KEY_SIZE],
    /// Key that seals packets from server to client.
    pub server_to_client_key: [u8; KEY_SIZE],
}

/// A connect token as a mathematical value.
pub struct ConnectTokenView {
    pub protocol_id: u64,
    pub create_timestamp: u64,
    pub expire_timestamp: u64,
    pub nonce: Seq<u8>,
    pub private_data: Seq<u8>,
    pub timeout_seconds: i32,
    pub server_addresses: Seq<ServerAddrView>,
    pub client_to_server_key: Seq<u8>,
    pub server_to_client_key: Seq<u8>,
}

impl ConnectTokenView {
    /// Every field has its fixed length, and the list holds between one and
    /// the protocol's maximum of well-formed endpoints.
    pub open spec fn wf(self) -> bool {
        &&& self.nonce.len() == TOKEN_NONCE_SIZE
        &&& self.private_data.len() == PRIVATE_DATA_SIZE
        &&& self.client_to_server_key.len() == KEY_SIZE
        &&& self.server_to_client_key.len() == KEY_SIZE
        &&& 1 <= self.server_addresses.len() <= MAX_SERVERS_PER_CONNECT
        &&& forall|i: int|
            0 <= i < self.server_addresses.len() ==> (#[trigger] self.server_addresses[i]).wf()
    }

    /// The meaningful part of the blob, before the padding.
    pub open spec fn body(self) -> Seq<u8> {
        spec_u64_to_le_bytes(self.protocol_id) + spec_u64_to_le_bytes(self.create_timestamp)
            + spec_u64_to_le_bytes(self.expire_timestamp) + self.nonce + self.private_data
            + spec_u32_to_le_bytes(self.timeout_seconds as u32) + spec_u32_to_le_bytes(
            self.server_addresses.len() as u32,
        ) + addrs_bytes(self.server_addresses) + self.client_to_server_key
            + self.server_to_client_key
    }

    /// The token blob: the body, padded with zero bytes to the fixed size.
    pub open spec fn serialize(self) -> Seq<u8> {
        self.body() + Seq::new((CONNECT_TOKEN_SIZE - self.body().len()) as nat, |i: int| 0u8)
    }

    /// What a blob parses to: the token, or the reason why it is refused. A
    /// blob of the wrong length is a size mismatch; an address count outside
    /// the protocol's range, or an address of unknown kind, is an invalid
    /// token.
    pub open spec fn parse(bytes: Seq<u8>) -> Result<ConnectTokenView, Error> {
        let count = u32_at(bytes, ADDRESS_COUNT_OFFSET as int);
        if bytes.len() != CONNECT_TOKEN_SIZE {
            Err(Error::SizeMismatch(CONNECT_TOKEN_SIZE, bytes.len() as usize))
        } else if count < 1 || count > MAX_SERVERS_PER_CONNECT {
            Err(Error::InvalidToken(TokenError::AddressCount(count)))
        } else {
            match parse_addrs(bytes, ADDRESS_LIST_OFFSET as int, count as nat) {
                Err(e) => Err(Error::InvalidToken(e)),
                Ok((addrs, end)) => Ok(
                    ConnectTokenView {
                        protocol_id: u64_at(bytes, 0),
                        create_timestamp: u64_at(bytes, 8),
                        expire_timestamp: u64_at(bytes, 16),
                        nonce: bytes.subrange(24, 48),
                        private_data: bytes.subrange(48, 1072),
                        timeout_seconds: u32_at(bytes, 1072) as i32,
                        server_addresses: addrs,
                        client_to_server_key: bytes.subrange(end, end + 32),
                        server_to_client_key: bytes.subrange(end + 32, end + 64),
                    },
                ),
            }
        }
    }
}

/// The views of a list of endpoints, in order.
pub open spec fn addrs_view(addrs: Seq<ServerAddr>) -> Seq<ServerAddrView> {
    Seq::new(addrs.len(), |i: int| addrs[i]@)
}

impl View for ConnectToken {
    type V = ConnectTokenView;

    open spec fn view(&self) -> ConnectTokenView {
        ConnectTokenView {
            protocol_id: self.protocol_id,
            create_timestamp: self.create_timestamp,
            expire_timestamp: self.expire_timestamp,
            nonce: self.nonce@,
            private_data: self.private_data@,
            timeout_seconds: self.timeout_seconds,
            server_addresses: addrs_view(self.server_addresses@),
            client_to_server_key: self.client_to_server_key@,
            server_to_client_key: self.server_to_client_key@,
        }
    }
}


/// Reads the endpoint that starts at `pos`.
fn read_addr(bytes: &[u8], pos: usize) -> (parsed: Result<ServerAddr, TokenError>)
    requires
        pos + 19 <= bytes.len(),
    ensures
        match parsed {
            Ok(addr) => parse_addr(bytes@, pos as int) == Ok::<ServerAddrView, TokenError>(addr@),
            Err(e) => parse_addr(bytes@, pos as int) == Err::<ServerAddrView, TokenError>(e),
        },
{
    let kind: u8 = bytes[pos];
    if kind == ADDRESS_IPV4 {
        let octets = get_array::<4>(bytes, pos + 1);
        let port = get_u16(bytes, pos + 5);
        Ok(ServerAddr::V4 { octets, port })
    } else if kind == ADDRESS_IPV6 {
        let mut segments = [0u16;8];
        let mut j: usize = 0;
        while j < 8
            invariant
                j <= 8,
                pos + 19 <= bytes.len(),
                forall|k: int| 0 <= k < j ==> segments@[k] == u16_at(bytes@, pos + 1 + 2 * k),
            decreases 8 - j,
        {
            segments[j] = get_u16(bytes, pos + 1 + 2 * j);
            j += 1;
        }
        let port = get_u16(bytes, pos + 17);
        assert(segments@ =~= segments_at(bytes@, pos + 1));
        Ok(ServerAddr::V6 { segments, port })
    } else {
        Err(TokenError::AddressKind(kind))
    }
}

/// Appends an endpoint to `out`.
fn write_addr(out: &mut Vec<u8>, addr: &ServerAddr)
    ensures
        final(out)@ == old(out)@ + addr@.bytes(),
{
    match addr {
        ServerAddr::V4 { octets, port } => {
            out.push(ADDRESS_IPV4);
            out.extend_from_slice(octets.as_slice());
            put_u16(out, *port);
            assert(out@ =~= old(out)@ + addr@.bytes());
        },
        ServerAddr::V6 { segments, port } => {
            out.push(ADDRESS_IPV6);
            let ghost start = out@;
            let mut j: usize = 0;
            while j < 8
                invariant
                    j <= 8,
                    out@ == start + segments_bytes(segments@.take(j as int)),
                decreases 8 - j,
            {
                proof {
                    lemma_auto_spec_u16_to_from_le_bytes();
                }
                put_u16(out, segments[j]);
                assert(out@ =~= start + segments_bytes(segments@.take(j + 1)));
                j += 1;
            }
            assert(segments@.take(8) =~= segments@);
            put_u16(out, *port);
            assert(out@ =~= old(out)@ + addr@.bytes());
        },
    }
}

/// An error met among the first endpoints is the error of every longer list.
proof fn lemma_parse_addrs_error(bytes: Seq<u8>, start: int, done: nat, count: nat, e: TokenError)
    requires
        done <= count,
        parse_addrs(bytes, start, done) == Err::<(Seq<ServerAddrView>, int), TokenError>(e),
    ensures
        parse_addrs(bytes, start, count) == Err::<(Seq<ServerAddrView>, int), TokenError>(e),
    decreases count,
{
    if done < count {
        lemma_parse_addrs_error(bytes, start, done, (count - 1) as nat, e);
    }
}

impl ConnectToken {
    /// The token lists between one server and the protocol's maximum.
    pub open spec fn wf(&self) -> bool {
        1 <= self.server_addresses@.len() <= MAX_SERVERS_PER_CONNECT
    }

    /// Parses a token blob. Succeeds exactly on the blobs that
    /// [`ConnectTokenView::parse`] accepts, and reports its error otherwise.
    pub fn read_from(bytes: &[u8]) -> (parsed: Result<ConnectToken, Error>)
        ensures
            match parsed {
                Ok(token) => ConnectTokenView::parse(bytes@) == Ok::<ConnectTokenView, Error>(
                    token@,
                ) && token.wf(),
                Err(e) => ConnectTokenView::parse(bytes@) == Err::<ConnectTokenView, Error>(e),
            },
    {
        if bytes.len() != CONNECT_TOKEN_SIZE {
            return Err(Error::SizeMismatch(CONNECT_TOKEN_SIZE, bytes.len()));
        }
        let count: u32 = get_u32(bytes, ADDRESS_COUNT_OFFSET);
        if count < 1 || count > 32 {
            return Err(Error::InvalidToken(TokenError::AddressCount(count)));
        }
        let mut server_addresses: Vec<ServerAddr> = Vec::new();
        let mut pos: usize = ADDRESS_LIST_OFFSET;
        let mut i: u32 = 0;
        assert(addrs_view(server_addresses@) =~= Seq::empty());
        while i < count
            invariant
                1 <= count <= 32,
                i <= count,
                count == u32_at(bytes@, ADDRESS_COUNT_OFFSET as int),
                bytes.len() == CONNECT_TOKEN_SIZE,
                ADDRESS_LIST_OFFSET <= pos <= ADDRESS_LIST_OFFSET + 19 * i,
                server_addresses@.len() == i,
                parse_addrs(bytes@, ADDRESS_LIST_OFFSET as int, i as nat) == Ok::<
                    (Seq<ServerAddrView>, int),
                    TokenError,
                >((addrs_view(server_addresses@), pos as int)),
            decreases count - i,
        {
            let ghost before = addrs_view(server_addresses@);
            match read_addr(bytes, pos) {
                Ok(addr) => {
                    server_addresses.push(addr);
                    pos +=
                    match addr {
                        ServerAddr::V4 { .. } => 7,
                        ServerAddr::V6 { .. } => 19,
                    };
                    assert(addrs_view(server_addresses@) =~= before.push(addr@));
                },
                Err(e) => {
                    proof {
                        assert(parse_addrs(bytes@, ADDRESS_LIST_OFFSET as int, (i + 1) as nat)
                            == Err::<(Seq<ServerAddrView>, int), TokenError>(e));
                        lemma_parse_addrs_error(
                            bytes@,
                            ADDRESS_LIST_OFFSET as int,
                            (i + 1) as nat,
                            count as nat,
                            e,
                        );
                    }
                    return Err(Error::InvalidToken(e));
                },
            }
            i += 1;
        }
        Ok(
            ConnectToken {
                protocol_id: get_u64(bytes, 0),
                create_timestamp: get_u64(bytes, 8),
                expire_timestamp: get_u64(bytes, 16),
                nonce: get_array::<TOKEN_NONCE_SIZE>(bytes, 24),
                private_data: get_array::<PRIVATE_DATA_SIZE>(bytes, 48),
                timeout_seconds: #[verifier::truncate]
                (get_u32(bytes, 1072) as i32),
                server_addresses,
                client_to_server_key: get_array::<32>(bytes, pos),
                server_to_client_key: get_array::<32>(bytes, pos + 32),
            },
        )
    }
}


/// An endpoint takes as many bytes on the wire as its size says.
pub proof fn lemma_addr_bytes_len(addr: ServerAddrView)
    requires
        addr.wf(),
    ensures
        addr.bytes().len() == addr.size(),
        7 <= addr.size() <= 19,
{
    lemma_auto_spec_u16_to_from_le_bytes();
}

/// A list of endpoints takes at most nineteen bytes for each of them.
pub proof fn lemma_addrs_bytes_len(addrs: Seq<ServerAddrView>)
    requires
        forall|i: int| 0 <= i < addrs.len() ==> (#[trigger] addrs[i]).wf(),
    ensures
        addrs_bytes(addrs).len() <= 19 * addrs.len(),
    decreases addrs.len(),
{
    if addrs.len() > 0 {
        lemma_addrs_bytes_len(addrs.drop_last());
        lemma_addr_bytes_len(addrs.last());
    }
}

impl ConnectToken {
    /// The address count as the blob holds it; a count that does not fit is
    /// held as the largest 32-bit number.
    pub open spec fn address_count(&self) -> u32 {
        if self.server_addresses@.len() > u32::MAX {
            u32::MAX
        } else {
            self.server_addresses@.len() as u32
        }
    }

    /// Serializes the token into a blob of the fixed size. Fails, with the
    /// offending count, exactly when the token lists no server or more than
    /// the protocol allows.
    pub fn try_into_bytes(&self) -> (blob: Result<Vec<u8>, Error>)
        ensures
            match blob {
                Ok(bytes) => self.wf() && bytes@ == self@.serialize(),
                Err(e) => !self.wf() && e == Error::InvalidToken(
                    TokenError::AddressCount(self.address_count()),
                ),
            },
    {
        let count: usize = self.server_addresses.len();
        if count < 1 || count > MAX_SERVERS_PER_CONNECT {
            let held: u32 = if count > 0xffff_ffff {
                u32::MAX
            } else {
                count as u32
            };
            return Err(Error::InvalidToken(TokenError::AddressCount(held)));
        }
        proof {
            lemma_auto_spec_u32_to_from_le_bytes();
            lemma_auto_spec_u64_to_from_le_bytes();
        }
        let mut out: Vec<u8> = Vec::new();
        put_u64(&mut out, self.protocol_id);
        put_u64(&mut out, self.create_timestamp);
        put_u64(&mut out, self.expire_timestamp);
        out.extend_from_slice(self.nonce.as_slice());
        out.extend_from_slice(self.private_data.as_slice());
        put_u32(&mut out, self.timeout_seconds as u32);
        put_u32(&mut out, count as u32);
        let ghost header = out@;
        let ghost addrs = addrs_view(self.server_addresses@);
        let mut i: usize = 0;
        while i < count
            invariant
                i <= count <= 32,
                count == self.server_addresses@.len(),
                addrs == addrs_view(self.server_addresses@),
                header.len() == ADDRESS_LIST_OFFSET,
                out@ == header + addrs_bytes(addrs.take(i as int)),
                out@.len() <= ADDRESS_LIST_OFFSET + 19 * i,
            decreases count - i,
        {
            write_addr(&mut out, &self.server_addresses[i]);
            proof {
                assert(addrs.take(i + 1).drop_last() =~= addrs.take(i as int));
                lemma_addr_bytes_len(addrs[i as int]);
                assert(out@ =~= header + addrs_bytes(addrs.take(i + 1)));
            }
            i += 1;
        }
        assert(addrs.take(count as int) =~= addrs);
        out.extend_from_slice(self.client_to_server_key.as_slice());
        out.extend_from_slice(self.server_to_client_key.as_slice());
        assert(out@ =~= self@.body());
        let ghost body = out@;
        while out.len() < CONNECT_TOKEN_SIZE
            invariant
                body.len() <= out@.len() <= CONNECT_TOKEN_SIZE,
                out@ == body + Seq::new((out@.len() - body.len()) as nat, |i: int| 0u8),
            decreases CONNECT_TOKEN_SIZE - out.len(),
        {
            out.push(0u8);
            assert(out@ =~= body + Seq::new((out@.len() - body.len()) as nat, |i: int| 0u8));
        }
        Ok(out)
    }
}


/// Parsing at the offset where an endpoint was written gives the endpoint
/// back.
proof fn lemma_parse_addr_round_trip(before: Seq<u8>, addr: ServerAddrView, after: Seq<u8>)
    requires
        addr.wf(),
    ensures
        parse_addr(before + addr.bytes() + after, before.len() as int) == Ok::<
            ServerAddrView,
            TokenError,
        >(addr),
{
    lemma_auto_spec_u16_to_from_le_bytes();
    let bytes = before + addr.bytes() + after;
    let pos = before.len() as int;
    match addr {
        ServerAddrView::V4 { octets, port } => {
            assert(bytes[pos] == ADDRESS_IPV4);
            assert(bytes.subrange(pos + 1, pos + 5) =~= octets);
            assert(bytes.subrange(pos + 5, pos + 7) =~= spec_u16_to_le_bytes(port));
        },
        ServerAddrView::V6 { segments, port } => {
            assert(bytes[pos] == ADDRESS_IPV6);
            assert forall|j: int| 0 <= j < 8 implies u16_at(bytes, pos + 1 + 2 * j)
                == segments[j] by {
                assert(bytes.subrange(pos + 1 + 2 * j, pos + 1 + 2 * j + 2)
                    =~= spec_u16_to_le_bytes(segments[j])) by {
                    assert((2 * j) / 2 == j && (2 * j) % 2 == 0);
                    assert((2 * j + 1) / 2 == j && (2 * j + 1) % 2 == 1);
                }
            }
            assert(segments_at(bytes, pos + 1) =~= segments);
            assert(bytes.subrange(pos + 17, pos + 19) =~= spec_u16_to_le_bytes(port));
        },
    }
}

/// Parsing at the offset where a list of endpoints was written gives the
/// list back, and ends behind it.
proof fn lemma_parse_addrs_round_trip(
    before: Seq<u8>,
    addrs: Seq<ServerAddrView>,
    after: Seq<u8>,
)
    requires
        forall|i: int| 0 <= i < addrs.len() ==> (#[trigger] addrs[i]).wf(),
    ensures
        parse_addrs(before + addrs_bytes(addrs) + after, before.len() as int, addrs.len())
            == Ok::<(Seq<ServerAddrView>, int), TokenError>(
            (addrs, (before.len() + addrs_bytes(addrs).len()) as int),
        ),
    decreases addrs.len(),
{
    if addrs.len() > 0 {
        let front = addrs.drop_last();
        let last = addrs.last();
        let bytes = before + addrs_bytes(addrs) + after;
        lemma_parse_addrs_round_trip(before, front, last.bytes() + after);
        assert(before + addrs_bytes(front) + (last.bytes() + after) =~= bytes);
        lemma_parse_addr_round_trip(before + addrs_bytes(front), last, after);
        assert(before + addrs_bytes(front) + last.bytes() + after =~= bytes);
        lemma_addr_bytes_len(last);
        assert(front.push(last) =~= addrs);
        let mid = (before.len() + addrs_bytes(front).len()) as int;
        assert(parse_addrs(bytes, before.len() as int, front.len()) == Ok::<
            (Seq<ServerAddrView>, int),
            TokenError,
        >((front, mid)));
        assert(parse_addr(bytes, mid) == Ok::<ServerAddrView, TokenError>(last));
    } else {
        assert(addrs =~= Seq::empty());
    }
}

/// Parsing the blob that a valid token serializes to gives the token back.
pub proof fn lemma_token_round_trip(token: ConnectTokenView)
    requires
        token.wf(),
    ensures
        ConnectTokenView::parse(token.serialize()) == Ok::<ConnectTokenView, Error>(token),
{
    lemma_auto_spec_u32_to_from_le_bytes();
    lemma_auto_spec_u64_to_from_le_bytes();
    lemma_addrs_bytes_len(token.server_addresses);
    let id = spec_u64_to_le_bytes(token.protocol_id);
    let create = spec_u64_to_le_bytes(token.create_timestamp);
    let expire = spec_u64_to_le_bytes(token.expire_timestamp);
    let timeout = spec_u32_to_le_bytes(token.timeout_seconds as u32);
    let count = spec_u32_to_le_bytes(token.server_addresses.len() as u32);
    let header = id + create + expire + token.nonce + token.private_data + timeout + count;
    let list = addrs_bytes(token.server_addresses);
    let keys = token.client_to_server_key + token.server_to_client_key;
    let body = token.body();
    let padding = Seq::new((CONNECT_TOKEN_SIZE - body.len()) as nat, |i: int| 0u8);
    let blob = token.serialize();
    assert(body =~= header + list + keys);
    assert(blob.len() == CONNECT_TOKEN_SIZE);
    assert(blob.subrange(0, 8) =~= id);
    assert(blob.subrange(8, 16) =~= create);
    assert(blob.subrange(16, 24) =~= expire);
    assert(blob.subrange(24, 48) =~= token.nonce);
    assert(blob.subrange(48, 1072) =~= token.private_data);
    assert(blob.subrange(1072, 1076) =~= timeout);
    assert(blob.subrange(1076, 1080) =~= count);
    let t = token.timeout_seconds;
    assert(((t as u32) as i32) == t) by (bit_vector);
    lemma_parse_addrs_round_trip(header, token.server_addresses, keys + padding);
    assert(header + list + (keys + padding) =~= blob);
    let end = ADDRESS_LIST_OFFSET + list.len();
    assert(blob.subrange(end, end + 32) =~= token.client_to_server_key);
    assert(blob.subrange(end + 32, end + 64) =~= token.server_to_client_key);
}

} // verus!
