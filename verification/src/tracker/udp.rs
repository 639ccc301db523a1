//! The messages of the tracker protocol over UDP.
use crate::address;
use crate::address::SocketAddrV4;
use crate::buffer;
use crate::digest;
use crate::parsing::Metadata;
use crate::random;
use crate::wire;
use bytes::BytesMut;
use vstd::prelude::*;

verus! {

/// What a message is about.
#[derive(Debug, Copy, Clone, PartialEq, Eq, Structural)]
pub enum Action {
    /// A connection to the tracker.
    Connect,
    /// An announcement, which is answered with peers.
    Announce,
    /// The numbers of a torrent.
    Scrape,
    /// Something went wrong.
    Error,
}

/// The number that stands for an action.
pub open spec fn number_of(action: Action) -> u32 {
    match action {
        Action::Connect => 0,
        Action::Announce => 1,
        Action::Scrape => 2,
        Action::Error => 3,
    }
}

/// The action that a number stands for.
pub open spec fn action_of(number: u32) -> Option<Action> {
    if number == 0 {
        Some(Action::Connect)
    } else if number == 1 {
        Some(Action::Announce)
    } else if number == 2 {
        Some(Action::Scrape)
    } else if number == 3 {
        Some(Action::Error)
    } else {
        None
    }
}

/// A number that stands for no action.
#[derive(Debug, Copy, Clone, PartialEq, Eq, Structural)]
pub struct InvalidAction;

impl InvalidAction {
    /// What to say about it.
    pub fn text(&self) -> (text: &'static str)
        ensures
            text@ == "Invalid action received."@,
    {
        "Invalid action received."
    }
}

impl Action {
    /// The number that stands for the action.
    pub fn to_number(self) -> (number: u32)
        ensures
            number == number_of(self),
    {
        match self {
            Action::Connect => 0,
            Action::Announce => 1,
            Action::Scrape => 2,
            Action::Error => 3,
        }
    }
}

impl vstd::std_specs::convert::TryFromSpecImpl<u32> for Action {
    open spec fn obeys_try_from_spec() -> bool {
        true
    }

    open spec fn try_from_spec(val: u32) -> Result<Self, InvalidAction> {
        match action_of(val) {
            Some(action) => Ok(action),
            None => Err(InvalidAction),
        }
    }
}

impl TryFrom<u32> for Action {
    type Error = InvalidAction;

    fn try_from(val: u32) -> (action: Result<Self, InvalidAction>) {
        match val {
            0 => Ok(Action::Connect),
            1 => Ok(Action::Announce),
            2 => Ok(Action::Scrape),
            3 => Ok(Action::Error),
            _ => Err(InvalidAction),
        }
    }
}

/// What has happened to a download.
#[derive(Debug, Copy, Clone, PartialEq, Eq, Structural)]
pub enum Event {
    /// Nothing new.
    Nothing,
    /// It is complete.
    Completed,
    /// It has begun.
    Started,
    /// It has been stopped.
    Stopped,
}

/// The number that stands for an event.
pub open spec fn event_number(event: Event) -> u32 {
    match event {
        Event::Nothing => 0,
        Event::Completed => 1,
        Event::Started => 2,
        Event::Stopped => 3,
    }
}

impl Event {
    /// The number that stands for the event.
    pub fn to_number(self) -> (number: u32)
        ensures
            number == event_number(self),
    {
        match self {
            Event::Nothing => 0,
            Event::Completed => 1,
            Event::Started => 2,
            Event::Stopped => 3,
        }
    }
}

/// What a client asks of a tracker.
#[derive(Debug, Copy, Clone)]
pub enum Request {
    /// A connection.
    Connect {
        /// The number of the protocol.
        protocol_id: u64,
        /// What the message is about.
        action: Action,
        /// A number that comes back in the response.
        transaction_id: u32,
    },
    /// Peers for a torrent, over IPv4.
    AnnounceV4 {
        /// The number that the tracker gave the connection.
        connection_id: u64,
        /// What the message is about.
        action: Action,
        /// A number that comes back in the response.
        transaction_id: u32,
        /// The hash of the torrent.
        info_hash: [u8; 20],
        /// The name of the client.
        peer_id: [u8; 20],
        /// The number of bytes received.
        downloaded: u64,
        /// The number of bytes that are missing.
        left: u64,
        /// The number of bytes sent.
        uploaded: u64,
        /// What has happened to the download.
        event: Event,
        /// The address of the client, its first byte most significant.
        ip_addr: u32,
        /// A number by which the tracker knows the client.
        key: u32,
        /// How many peers are wanted. A negative number leaves it to the tracker.
        num_want: i32,
        /// The port on which the client listens.
        port: u16,
    },
}

/// The number of the protocol.
pub const PROTOCOL_ID: u64 = 0x41727101980;

impl Request {
    /// A request for a connection with the given number for the transaction.
    pub fn connect_as(transaction_id: u32) -> (request: Self)
        ensures
            request == (Request::Connect {
                protocol_id: PROTOCOL_ID,
                action: Action::Connect,
                transaction_id,
            }),
    {
        Request::Connect { protocol_id: PROTOCOL_ID, action: Action::Connect, transaction_id }
    }

    /// A request for a connection. The number of the transaction is left to chance.
    pub fn connect() -> (request: Self)
        ensures
            request matches Request::Connect { protocol_id, action, .. } && protocol_id
                == PROTOCOL_ID && action == Action::Connect,
    {
        Request::connect_as(random::number())
    }

    /// The request is an announcement of the start of a download of which nothing is there yet.
    pub open spec fn announces_start(
        self,
        connection_id: u64,
        metadata: Metadata,
        serialized: Seq<u8>,
        peer_id: [u8; 20],
        listener_addr: SocketAddrV4,
    ) -> bool {
        self matches Request::AnnounceV4 {
            connection_id: id,
            action,
            transaction_id: _,
            info_hash,
            peer_id: name,
            downloaded,
            left,
            uploaded,
            event,
            ip_addr,
            key,
            num_want,
            port,
        } && {
            &&& id == connection_id
            &&& action == Action::Announce
            &&& info_hash@ == digest::sha1_of(serialized)
            &&& name == peer_id
            &&& downloaded == 0
            &&& left == metadata.info.torr_type.total()
            &&& uploaded == 0
            &&& event == Event::Started
            &&& ip_addr == wire::from_be32(listener_addr.ip@)
            &&& key == 0
            &&& num_want == -1
            &&& port == listener_addr.port
        }
    }

    /// The announcement of the start of a download, with the given number for the transaction.
    pub fn announce_as(
        transaction_id: u32,
        connection_id: u64,
        metadata: &Metadata,
        serialized: &[u8],
        peer_id: [u8; 20],
        listener_addr: SocketAddrV4,
    ) -> (request: Self)
        requires
            metadata.info.torr_type.total() <= u64::MAX,
        ensures
            request.announces_start(
                connection_id,
                *metadata,
                serialized@,
                peer_id,
                listener_addr,
            ),
            request->AnnounceV4_transaction_id == transaction_id,
    {
        assert(listener_addr.ip@.subrange(0, 4) =~= listener_addr.ip@);
        Request::AnnounceV4 {
            connection_id,
            action: Action::Announce,
            transaction_id,
            info_hash: Metadata::info_hash(serialized),
            peer_id,
            downloaded: 0,
            left: metadata.info.torr_type.len(),
            uploaded: 0,
            event: Event::Started,
            ip_addr: wire::u32_at(listener_addr.ip.as_slice(), 0),
            key: 0,
            num_want: -1,
            port: listener_addr.port,
        }
    }

    /// The announcement of the start of a download. The number of the transaction is left to chance.
    pub fn announce(
        connection_id: u64,
        metadata: &Metadata,
        serialized: &[u8],
        peer_id: [u8; 20],
        listener_addr: SocketAddrV4,
    ) -> (request: Self)
        requires
            metadata.info.torr_type.total() <= u64::MAX,
        ensures
            request.announces_start(
                connection_id,
                *metadata,
                serialized@,
                peer_id,
                listener_addr,
            ),
    {
        Request::announce_as(
            random::number(),
            connection_id,
            metadata,
            serialized,
            peer_id,
            listener_addr,
        )
    }
}

/// The bytes of a request.
pub open spec fn request_bytes(request: Request) -> Seq<u8> {
    match request {
        Request::Connect { protocol_id, action, transaction_id } => wire::be64(protocol_id)
            + wire::be32(number_of(action)) + wire::be32(transaction_id),
        Request::AnnounceV4 {
            connection_id,
            action,
            transaction_id,
            info_hash,
            peer_id,
            downloaded,
            left,
            uploaded,
            event,
            ip_addr,
            key,
            num_want,
            port,
        } => wire::be64(connection_id) + wire::be32(number_of(action)) + wire::be32(transaction_id)
            + info_hash@ + peer_id@ + wire::be64(downloaded) + wire::be64(left) + wire::be64(
            uploaded,
        ) + wire::be32(event_number(event)) + wire::be32(ip_addr) + wire::be32(key) + wire::be32(
            num_want as u32,
        ) + wire::be16(port),
    }
}

/// A request for a connection takes 16 bytes, and an announcement 98.
pub proof fn request_lengths(request: Request)
    ensures
        request_bytes(request).len() == (match request {
            Request::Connect { .. } => 16nat,
            Request::AnnounceV4 { .. } => 98nat,
        }),
{
}

/// Writes requests.
#[derive(Debug)]
pub struct RequestEncoder {}

impl RequestEncoder {
    /// Puts the bytes of a request at the end of a buffer.
    pub fn encode(&mut self, item: Request, dst: &mut BytesMut)
        requires
            buffer::bytes_of(*old(dst)).len() + 98 <= isize::MAX,
        ensures
            buffer::bytes_of(*final(dst)) == buffer::bytes_of(*old(dst)) + request_bytes(item),
    {
        let ghost before = buffer::bytes_of(*dst);
        match item {
            Request::Connect { protocol_id, action, transaction_id } => {
                buffer::reserve(dst, 16);
                buffer::extend_from_slice(dst, wire::u64_to_be(protocol_id).as_slice());
                buffer::extend_from_slice(dst, wire::u32_to_be(action.to_number()).as_slice());
                buffer::extend_from_slice(dst, wire::u32_to_be(transaction_id).as_slice());
            },
            Request::AnnounceV4 {
                connection_id,
                action,
                transaction_id,
                info_hash,
                peer_id,
                downloaded,
                left,
                uploaded,
                event,
                ip_addr,
                key,
                num_want,
                port,
            } => {
                buffer::reserve(dst, 98);
                buffer::extend_from_slice(dst, wire::u64_to_be(connection_id).as_slice());
                buffer::extend_from_slice(dst, wire::u32_to_be(action.to_number()).as_slice());
                buffer::extend_from_slice(dst, wire::u32_to_be(transaction_id).as_slice());
                buffer::extend_from_slice(dst, info_hash.as_slice());
                buffer::extend_from_slice(dst, peer_id.as_slice());
                buffer::extend_from_slice(dst, wire::u64_to_be(downloaded).as_slice());
                buffer::extend_from_slice(dst, wire::u64_to_be(left).as_slice());
                buffer::extend_from_slice(dst, wire::u64_to_be(uploaded).as_slice());
                buffer::extend_from_slice(dst, wire::u32_to_be(event.to_number()).as_slice());
                buffer::extend_from_slice(dst, wire::u32_to_be(ip_addr).as_slice());
                buffer::extend_from_slice(dst, wire::u32_to_be(key).as_slice());
                buffer::extend_from_slice(dst, wire::u32_to_be(num_want as u32).as_slice());
                buffer::extend_from_slice(dst, wire::u16_to_be(port).as_slice());
            },
        }
        assert(buffer::bytes_of(*dst) =~= before + request_bytes(item));
    }
}

/// What a tracker answers.
#[derive(Debug, Clone)]
pub enum Response {
    /// The connection stands.
    Connect {
        /// What the message is about.
        action: Action,
        /// The number that came with the request.
        transaction_id: u32,
        /// The number of the connection.
        connection_id: u64,
    },
    /// Peers of a torrent.
    AnnounceV4 {
        /// What the message is about.
        action: Action,
        /// The number that came with the request.
        transaction_id: u32,
        /// How many seconds to wait before the next announcement.
        interval: u32,
        /// How many peers lack something.
        leechers: u32,
        /// How many peers have everything.
        seeders: u32,
        /// The addresses of peers.
        ip_addrs: Vec<SocketAddrV4>,
    },
}

/// The 32-bit number at a position.
pub open spec fn number_at(bytes: Seq<u8>, at: int) -> u32 {
    wire::from_be32(bytes.subrange(at, at + 4))
}

/// How long an answer with peers has to be, as it says itself.
pub open spec fn announced_length(bytes: Seq<u8>) -> int {
    20 + 6 * (number_at(bytes, 12) + number_at(bytes, 16))
}

/// The bytes are not yet a whole response. An answer with peers is one only when it has exactly the
/// length that it says itself, and room for one peer.
pub open spec fn incomplete(bytes: Seq<u8>) -> bool {
    ||| bytes.len() < 4
    ||| action_of(number_at(bytes, 0)) == Some(Action::Connect) && bytes.len() < 16
    ||| action_of(number_at(bytes, 0)) == Some(Action::Announce) && (bytes.len() < 26 || bytes.len()
        != announced_length(bytes))
}

/// The bytes are the start of a response that is provided for: not an error, nor the numbers of a
/// torrent. The length that an answer with peers asks for fits in 32 bits, and in memory.
pub open spec fn provided_for(bytes: Seq<u8>) -> bool {
    bytes.len() < 4 || match action_of(number_at(bytes, 0)) {
        Some(Action::Scrape) => false,
        Some(Action::Error) => false,
        Some(Action::Announce) => bytes.len() < 26 || {
            &&& announced_length(bytes) - 20 <= u32::MAX
            &&& announced_length(bytes) + bytes.len() <= isize::MAX
        },
        _ => true,
    }
}

/// Whether the bytes are the start of a response that is provided for.
pub fn is_provided_for(src: &BytesMut) -> (provided: bool)
    ensures
        provided == provided_for(buffer::bytes_of(*src)),
{
    let bytes = buffer::as_slice(src);
    if bytes.len() < 4 {
        return true;
    }
    match Action::try_from(wire::u32_at(bytes, 0)) {
        Ok(Action::Scrape) => false,
        Ok(Action::Error) => false,
        Ok(Action::Announce) => {
            if bytes.len() < 26 {
                true
            } else {
                let peers: u64 = wire::u32_at(bytes, 12) as u64 + wire::u32_at(bytes, 16) as u64;
                6 * peers <= u32::MAX as u64 && (20 + 6 * peers) as u128 + bytes.len() as u128
                    <= isize::MAX as u128
            }
        },
        _ => true,
    }
}

/// The response that the bytes hold.
pub open spec fn holds(bytes: Seq<u8>, response: Response) -> bool {
    match response {
        Response::Connect { action, transaction_id, connection_id } => {
            &&& action == Action::Connect
            &&& action_of(number_at(bytes, 0)) == Some(action)
            &&& transaction_id == number_at(bytes, 4)
            &&& connection_id == wire::from_be64(bytes.subrange(8, 16))
        },
        Response::AnnounceV4 {
            action,
            transaction_id,
            interval,
            leechers,
            seeders,
            ip_addrs,
        } => {
            &&& action == Action::Announce
            &&& action_of(number_at(bytes, 0)) == Some(action)
            &&& transaction_id == number_at(bytes, 4)
            &&& interval == number_at(bytes, 8)
            &&& leechers == number_at(bytes, 12)
            &&& seeders == number_at(bytes, 16)
            &&& address::lists(bytes.skip(20), ip_addrs@)
        },
    }
}

/// What is left of the bytes after a response has been taken off the front.
pub open spec fn left_over(bytes: Seq<u8>, response: Response) -> Seq<u8> {
    bytes.skip(
        match response {
            Response::Connect { .. } => 16,
            Response::AnnounceV4 { .. } => bytes.len() as int,
        },
    )
}

/// Reads responses.
#[derive(Debug)]
pub struct ResponseDecoder {}

impl ResponseDecoder {
    /// Takes a response off the front of a buffer, if a whole one is there.
    pub fn decode(&mut self, src: &mut BytesMut) -> (response: Result<
        Option<Response>,
        InvalidAction,
    >)
        requires
            provided_for(buffer::bytes_of(*old(src))),
        ensures
            ({
                let before = buffer::bytes_of(*old(src));
                let after = buffer::bytes_of(*final(src));
                match response {
                    Err(_) => {
                        &&& before.len() >= 4
                        &&& action_of(number_at(before, 0)) is None
                        &&& after == before
                    },
                    Ok(None) => incomplete(before) && after == before,
                    Ok(Some(response)) => {
                        &&& !incomplete(before)
                        &&& holds(before, response)
                        &&& after == left_over(before, response)
                    },
                }
            }),
    {
        let ghost before = buffer::bytes_of(*src);
        let len: usize = buffer::as_slice(src).len();
        if len < 4 {
            return Ok(None);
        }
        let number: u32 = wire::u32_at(buffer::as_slice(src), 0);
        let action = match Action::try_from(number) {
            Ok(action) => action,
            Err(e) => {
                return Err(e);
            },
        };
        match action {
            Action::Connect => {
                if len < 4 + 4 + 8 {
                    buffer::reserve(src, 4 + 4 + 8 - len);
                    return Ok(None);
                }
                buffer::advance(src, 4);
                assert(buffer::bytes_of(*src).subrange(0, 4) =~= before.subrange(4, 8));
                let transaction_id: u32 = wire::u32_at(buffer::as_slice(src), 0);
                buffer::advance(src, 4);
                assert(buffer::bytes_of(*src).subrange(0, 8) =~= before.subrange(8, 16));
                let connection_id: u64 = wire::u64_at(buffer::as_slice(src), 0);
                buffer::advance(src, 8);
                assert(buffer::bytes_of(*src) =~= before.skip(16));
                Ok(Some(Response::Connect { action, transaction_id, connection_id }))
            },
            Action::Announce => {
                if len < 20 + 6 {
                    buffer::reserve(src, 20 + 6 - len);
                    return Ok(None);
                }
                let transaction_id: u32 = wire::u32_at(buffer::as_slice(src), 4);
                let interval: u32 = wire::u32_at(buffer::as_slice(src), 8);
                let leechers: u32 = wire::u32_at(buffer::as_slice(src), 12);
                let seeders: u32 = wire::u32_at(buffer::as_slice(src), 16);
                let wanted: usize = 20 + (6 * (leechers + seeders)) as usize;
                if len != wanted {
                    buffer::reserve(src, wanted);
                    return Ok(None);
                }
                buffer::advance(src, 20);
                let ip_addrs = address::read_list(buffer::as_slice(src));
                buffer::advance(src, ip_addrs.len() * 6);
                assert(buffer::bytes_of(*src) =~= before.skip(before.len() as int));
                Ok(
                    Some(
                        Response::AnnounceV4 {
                            action,
                            transaction_id,
                            interval,
                            leechers,
                            seeders,
                            ip_addrs,
                        },
                    ),
                )
            },
            _ => Ok(None),
        }
    }
}

/// The bytes of a response.
pub open spec fn response_bytes(response: Response) -> Seq<u8> {
    match response {
        Response::Connect { action, transaction_id, connection_id } => wire::be32(
            number_of(action),
        ) + wire::be32(transaction_id) + wire::be64(connection_id),
        Response::AnnounceV4 {
            action,
            transaction_id,
            interval,
            leechers,
            seeders,
            ip_addrs,
        } => wire::be32(number_of(action)) + wire::be32(transaction_id) + wire::be32(interval)
            + wire::be32(leechers) + wire::be32(seeders) + address::compact_list(ip_addrs@),
    }
}

/// Two responses say the same.
pub open spec fn same_response(a: Response, b: Response) -> bool {
    match (a, b) {
        (
            Response::Connect { action, transaction_id, connection_id },
            Response::Connect {
                action: other_action,
                transaction_id: other_transaction,
                connection_id: other_connection,
            },
        ) => action == other_action && transaction_id == other_transaction && connection_id
            == other_connection,
        (
            Response::AnnounceV4 {
                action,
                transaction_id,
                interval,
                leechers,
                seeders,
                ip_addrs,
            },
            Response::AnnounceV4 {
                action: other_action,
                transaction_id: other_transaction,
                interval: other_interval,
                leechers: other_leechers,
                seeders: other_seeders,
                ip_addrs: other_addrs,
            },
        ) => action == other_action && transaction_id == other_transaction && interval
            == other_interval && leechers == other_leechers && seeders == other_seeders
            && ip_addrs@ == other_addrs@,
        _ => false,
    }
}

/// The response that a tracker sends is the one that the client reads. An answer with peers lists as
/// many as it counts, and at least one.
pub proof fn responses_round_trip(sent: Response, read: Response)
    requires
        match sent {
            Response::Connect { action, .. } => action == Action::Connect,
            Response::AnnounceV4 { action, leechers, seeders, ip_addrs, .. } => action
                == Action::Announce && ip_addrs@.len() == leechers + seeders && ip_addrs@.len() > 0,
        },
        holds(response_bytes(sent), read),
    ensures
        !incomplete(response_bytes(sent)),
        same_response(sent, read),
{
    let bytes = response_bytes(sent);
    let any = bytes.subrange(0, 4);
    match sent {
        Response::Connect { action, transaction_id, connection_id } => {
            assert(bytes.subrange(0, 4) =~= wire::be32(number_of(action)));
            assert(bytes.subrange(4, 8) =~= wire::be32(transaction_id));
            assert(bytes.subrange(8, 16) =~= wire::be64(connection_id));
            wire::be32_round_trip(number_of(action), any);
            wire::be32_round_trip(transaction_id, any);
            wire::be64_round_trip(connection_id, bytes.subrange(8, 16));
        },
        Response::AnnounceV4 {
            action,
            transaction_id,
            interval,
            leechers,
            seeders,
            ip_addrs,
        } => {
            assert(bytes.subrange(0, 4) =~= wire::be32(number_of(action)));
            assert(bytes.subrange(4, 8) =~= wire::be32(transaction_id));
            assert(bytes.subrange(8, 12) =~= wire::be32(interval));
            assert(bytes.subrange(12, 16) =~= wire::be32(leechers));
            assert(bytes.subrange(16, 20) =~= wire::be32(seeders));
            assert(bytes.skip(20) =~= address::compact_list(ip_addrs@));
            wire::be32_round_trip(number_of(action), any);
            wire::be32_round_trip(transaction_id, any);
            wire::be32_round_trip(interval, any);
            wire::be32_round_trip(leechers, any);
            wire::be32_round_trip(seeders, any);
            address::compact_list_length(ip_addrs@);
            if let Response::AnnounceV4 { ip_addrs: listed, .. } = read {
                address::lists_round_trip(ip_addrs@, listed@);
            }
        },
    }
}

/// Every number that stands for an action stands for one only.
pub proof fn actions_round_trip(action: Action, number: u32)
    ensures
        action_of(number_of(action)) == Some(action),
        action_of(number) == Some(action) <==> number_of(action) == number,
{
}

/// Actions and events have the numbers of the protocol, and every other number stands for no action.
pub proof fn actions_and_events_are_numbered(action: Action, event: Event, number: u32)
    ensures
        number_of(action) == (match action {
            Action::Connect => 0int,
            Action::Announce => 1,
            Action::Scrape => 2,
            Action::Error => 3,
        }),
        event_number(event) == (match event {
            Event::Nothing => 0int,
            Event::Completed => 1,
            Event::Started => 2,
            Event::Stopped => 3,
        }),
        action_of(number) is None <==> number > 3,
        PROTOCOL_ID == 0x417_2710_1980,
{
}

/// The number at a position is the one that its four bytes spell.
proof fn numbers_are_spelled_out(bytes: Seq<u8>, at: int)
    requires
        0 <= at,
        at + 4 <= bytes.len(),
    ensures
        number_at(bytes, at) == wire::value(bytes.subrange(at, at + 4)),
{
    let four = bytes.subrange(at, at + 4);
    wire::integers_are_spelled_out(0, 0, 0, four.take(2), four, four + four);
}

/// What the bytes of integers of several sizes spell.
proof fn written_integers(a: u16, b: u32, c: u64)
    ensures
        be_lengths(),
        wire::value(wire::be16(a)) == a,
        wire::value(wire::be32(b)) == b,
        wire::value(wire::be64(c)) == c,
{
    let two = seq![0u8, 0u8];
    let four = two + two;
    wire::integers_are_spelled_out(a, b, c, two, four, four + four);
}

/// The numbers of bytes of integers.
spec fn be_lengths() -> bool {
    &&& forall|x: u16| (#[trigger] wire::be16(x)).len() == 2
    &&& forall|x: u32| (#[trigger] wire::be32(x)).len() == 4
    &&& forall|x: u64| (#[trigger] wire::be64(x)).len() == 8
}

/// A request for a connection spells, in this order, the number of the protocol in eight bytes, the
/// action in four and the number of the transaction in four.
pub proof fn connection_requests_are_spelled_out(protocol_id: u64, action: Action, transaction_id: u32)
    ensures
        ({
            let bytes = request_bytes(Request::Connect { protocol_id, action, transaction_id });
            &&& bytes.len() == 16
            &&& wire::value(bytes.subrange(0, 8)) == protocol_id
            &&& wire::value(bytes.subrange(8, 12)) == number_of(action)
            &&& wire::value(bytes.subrange(12, 16)) == transaction_id
        }),
{
    let bytes = request_bytes(Request::Connect { protocol_id, action, transaction_id });
    written_integers(0, number_of(action), protocol_id);
    written_integers(0, transaction_id, 0);
    assert(bytes.subrange(0, 8) =~= wire::be64(protocol_id));
    assert(bytes.subrange(8, 12) =~= wire::be32(number_of(action)));
    assert(bytes.subrange(12, 16) =~= wire::be32(transaction_id));
}

/// An announcement spells, in this order, the number of the connection in eight bytes, the action and
/// the number of the transaction in four each, the hash of the torrent and the name of the client in
/// twenty each, the bytes received, missing and sent in eight each, the event, the address, the key
/// and the number of peers that are wanted in four each, and the port in two.
pub proof fn announcements_are_spelled_out(request: Request)
    requires
        request is AnnounceV4,
    ensures
        ({
            let bytes = request_bytes(request);
            &&& bytes.len() == 98
            &&& wire::value(bytes.subrange(0, 8)) == request->connection_id
            &&& wire::value(bytes.subrange(8, 12)) == number_of(request->AnnounceV4_action)
            &&& wire::value(bytes.subrange(12, 16)) == request->AnnounceV4_transaction_id
            &&& bytes.subrange(16, 36) == request->info_hash@
            &&& bytes.subrange(36, 56) == request->peer_id@
            &&& wire::value(bytes.subrange(56, 64)) == request->downloaded
            &&& wire::value(bytes.subrange(64, 72)) == request->left
            &&& wire::value(bytes.subrange(72, 80)) == request->uploaded
            &&& wire::value(bytes.subrange(80, 84)) == event_number(request->event)
            &&& wire::value(bytes.subrange(84, 88)) == request->ip_addr
            &&& wire::value(bytes.subrange(88, 92)) == request->key
            &&& wire::value(bytes.subrange(92, 96)) == request->num_want as u32
            &&& wire::value(bytes.subrange(96, 98)) == request->port
        }),
{
    let bytes = request_bytes(request);
    written_integers(
        request->port,
        number_of(request->AnnounceV4_action),
        request->connection_id,
    );
    written_integers(0, request->AnnounceV4_transaction_id, request->downloaded);
    written_integers(0, event_number(request->event), request->left);
    written_integers(0, request->ip_addr, request->uploaded);
    written_integers(0, request->key, 0);
    written_integers(0, request->num_want as u32, 0);
    assert(request->info_hash@.len() == 20 && request->peer_id@.len() == 20);
    assert(bytes.subrange(0, 8) =~= wire::be64(request->connection_id));
    assert(bytes.subrange(8, 12) =~= wire::be32(number_of(request->AnnounceV4_action)));
    assert(bytes.subrange(12, 16) =~= wire::be32(request->AnnounceV4_transaction_id));
    assert(bytes.subrange(16, 36) =~= request->info_hash@);
    assert(bytes.subrange(36, 56) =~= request->peer_id@);
    assert(bytes.subrange(56, 64) =~= wire::be64(request->downloaded));
    assert(bytes.subrange(64, 72) =~= wire::be64(request->left));
    assert(bytes.subrange(72, 80) =~= wire::be64(request->uploaded));
    assert(bytes.subrange(80, 84) =~= wire::be32(event_number(request->event)));
    assert(bytes.subrange(84, 88) =~= wire::be32(request->ip_addr));
    assert(bytes.subrange(88, 92) =~= wire::be32(request->key));
    assert(bytes.subrange(92, 96) =~= wire::be32(request->num_want as u32));
    assert(bytes.subrange(96, 98) =~= wire::be16(request->port));
}

/// The announcement of the start of a download says that nothing has been received or sent and that
/// the whole torrent is missing, leaves the number of peers to the tracker, and gives the address and
/// the port at which the client listens.
pub proof fn starts_are_announced(
    request: Request,
    connection_id: u64,
    metadata: Metadata,
    serialized: Seq<u8>,
    peer_id: [u8; 20],
    listener_addr: SocketAddrV4,
)
    requires
        request.announces_start(connection_id, metadata, serialized, peer_id, listener_addr),
    ensures
        ({
            let bytes = request_bytes(request);
            &&& bytes.len() == 98
            &&& wire::value(bytes.subrange(0, 8)) == connection_id
            &&& wire::value(bytes.subrange(8, 12)) == 1
            &&& bytes.subrange(16, 36) == digest::sha1_of(serialized)
            &&& bytes.subrange(36, 56) == peer_id@
            &&& wire::value(bytes.subrange(56, 64)) == 0
            &&& wire::value(bytes.subrange(64, 72)) == metadata.info.torr_type.total()
            &&& wire::value(bytes.subrange(72, 80)) == 0
            &&& wire::value(bytes.subrange(80, 84)) == 2
            &&& bytes.subrange(84, 88) == listener_addr.ip@
            &&& wire::value(bytes.subrange(88, 92)) == 0
            &&& wire::value(bytes.subrange(92, 96)) == 0xffff_ffff
            &&& wire::value(bytes.subrange(96, 98)) == listener_addr.port
        }),
{
    let bytes = request_bytes(request);
    announcements_are_spelled_out(request);
    assert(listener_addr.ip@.len() == 4);
    wire::be32_round_trip(0, listener_addr.ip@);
    written_integers(0, request->ip_addr, 0);
    assert(bytes.subrange(84, 88) =~= wire::be32(request->ip_addr));
    let minus_one = -1i32;
    assert(minus_one as u32 == 0xffff_ffff) by (bit_vector)
        requires
            minus_one == -1i32,
    ;
}

/// The response that bytes hold is about a connection where the first four spell 0, and about peers
/// where they spell 1. The next four spell the number of the transaction. Then follow, of a
/// connection, its number in eight bytes and, of peers, the seconds to wait and the numbers of those
/// that lack something and that have everything in four bytes each, and the addresses.
pub proof fn responses_are_spelled_out(bytes: Seq<u8>, response: Response)
    requires
        holds(bytes, response),
        response is Connect ==> bytes.len() >= 16,
        response is AnnounceV4 ==> bytes.len() >= 20,
    ensures
        match response {
            Response::Connect { action, transaction_id, connection_id } => {
                &&& action == Action::Connect
                &&& wire::value(bytes.subrange(0, 4)) == 0
                &&& wire::value(bytes.subrange(4, 8)) == transaction_id
                &&& wire::value(bytes.subrange(8, 16)) == connection_id
            },
            Response::AnnounceV4 {
                action,
                transaction_id,
                interval,
                leechers,
                seeders,
                ip_addrs,
            } => {
                &&& action == Action::Announce
                &&& wire::value(bytes.subrange(0, 4)) == 1
                &&& wire::value(bytes.subrange(4, 8)) == transaction_id
                &&& wire::value(bytes.subrange(8, 12)) == interval
                &&& wire::value(bytes.subrange(12, 16)) == leechers
                &&& wire::value(bytes.subrange(16, 20)) == seeders
                &&& ip_addrs@.len() == (bytes.len() - 20) / 6
                &&& forall|i: int|
                    0 <= i < ip_addrs@.len() ==> {
                        &&& (#[trigger] ip_addrs@[i]).ip@ == bytes.subrange(
                            20 + 6 * i,
                            24 + 6 * i,
                        )
                        &&& ip_addrs@[i].port == bytes[24 + 6 * i] * 0x100 + bytes[25 + 6 * i]
                    }
            },
        },
{
    numbers_are_spelled_out(bytes, 0);
    numbers_are_spelled_out(bytes, 4);
    numbers_are_spelled_out(bytes, 8);
    numbers_are_spelled_out(bytes, 12);
    actions_round_trip(Action::Connect, number_at(bytes, 0));
    actions_round_trip(Action::Announce, number_at(bytes, 0));
    match response {
        Response::Connect { .. } => {
            let eight = bytes.subrange(8, 16);
            wire::integers_are_spelled_out(0, 0, 0, eight.take(2), eight.take(4), eight);
        },
        Response::AnnounceV4 { ip_addrs, .. } => {
            numbers_are_spelled_out(bytes, 16);
            let rest = bytes.skip(20);
            assert forall|i: int| 0 <= i < ip_addrs@.len() implies {
                &&& (#[trigger] ip_addrs@[i]).ip@ == bytes.subrange(20 + 6 * i, 24 + 6 * i)
                &&& ip_addrs@[i].port == bytes[24 + 6 * i] * 0x100 + bytes[25 + 6 * i]
            } by {
                address::listed_addresses_stand_in_order(rest, ip_addrs@, i);
                assert(ip_addrs@[i].ip@ =~= bytes.subrange(20 + 6 * i, 24 + 6 * i));
            }
        },
    }
}

/// More bytes are waited for while there are fewer than four, fewer than sixteen of a connection, or
/// of an answer with peers fewer than one peer takes, or another number than its counts of peers call
/// for.
pub proof fn whole_responses_are_waited_for(bytes: Seq<u8>)
    ensures
        incomplete(bytes) <==> {
            ||| bytes.len() < 4
            ||| wire::value(bytes.subrange(0, 4)) == 0 && bytes.len() < 16
            ||| wire::value(bytes.subrange(0, 4)) == 1 && (bytes.len() < 26 || bytes.len() != 20 + 6
                * (wire::value(bytes.subrange(12, 16)) + wire::value(bytes.subrange(16, 20))))
        },
{
    if bytes.len() >= 4 {
        numbers_are_spelled_out(bytes, 0);
        actions_round_trip(Action::Connect, number_at(bytes, 0));
        actions_round_trip(Action::Announce, number_at(bytes, 0));
        if bytes.len() >= 26 {
            numbers_are_spelled_out(bytes, 12);
            numbers_are_spelled_out(bytes, 16);
        }
    }
}

/// The bytes are provided for unless they begin an answer about numbers of a torrent or an error, or
/// one with peers whose counts ask for more than 32 bits, or more than the memory, can hold.
pub proof fn errors_are_not_provided_for(bytes: Seq<u8>)
    requires
        bytes.len() >= 4,
    ensures
        provided_for(bytes) <==> {
            let action = wire::value(bytes.subrange(0, 4));
            let room = 6 * (wire::value(bytes.subrange(12, 16)) + wire::value(
                bytes.subrange(16, 20),
            ));
            &&& action != 2
            &&& action != 3
            &&& action == 1 && bytes.len() >= 26 ==> room <= 0xffff_ffff && 20 + room + bytes.len()
                <= isize::MAX
        },
{
    numbers_are_spelled_out(bytes, 0);
    if bytes.len() >= 26 {
        numbers_are_spelled_out(bytes, 12);
        numbers_are_spelled_out(bytes, 16);
    }
    actions_round_trip(Action::Scrape, number_at(bytes, 0));
    actions_round_trip(Action::Error, number_at(bytes, 0));
    actions_round_trip(Action::Announce, number_at(bytes, 0));
}

/// What follows the sixteen bytes of an answer about a connection is left for later, and of an answer
/// with peers nothing is left.
pub proof fn what_follows_a_response_is_left(front: Seq<u8>, rest: Seq<u8>, response: Response)
    requires
        front.len() == 16,
    ensures
        response is Connect ==> left_over(front + rest, response) == rest,
        response is AnnounceV4 ==> left_over(front + rest, response).len() == 0,
{
    if response is Connect {
        assert(left_over(front + rest, response) =~= rest);
    }
}

} // verus!
