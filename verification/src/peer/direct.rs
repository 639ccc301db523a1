//! Peers by address, and a session that listens to the client without a relay.
use crate::address;
use crate::address::SocketAddrV4;
use crate::bits;
use crate::buffer;
use crate::message;
use crate::message::BitField;
use crate::parsing::Metadata;
use crate::peer::blocks;
use crate::peer::blocks::BLOCK_SIZE;
use crate::peer::message as header_message;
use crate::peer::message::{Message, MessageId};
use crate::peer::peer;
use crate::peer::peer::{Round, TryRecvError};
use crate::peer::pieces;
use crate::peer::pool;
use crate::peer::pool::{Pieces, PoolModel};
use crate::peer::requests;
use crate::peer::writing;
use crate::peer::BlockState;
use crate::wire;
use crate::ThreadUpdate;
use vstd::prelude::*;

verus! {

/// A peer, and how things stand with it.
#[derive(Debug, Clone)]
pub struct Peer {
    /// Where the peer can be reached.
    pub socket_addr: SocketAddrV4,
    /// The name of the peer.
    pub peer_id: String,
    /// Whether the client is choking the peer.
    pub am_choking: bool,
    /// Whether the client wants something that the peer has.
    pub am_interested: bool,
    /// Whether the peer is choking the client.
    pub peer_choking: bool,
    /// Whether the peer wants something that the client has.
    pub peer_interested: bool,
}

impl Peer {
    /// A peer at an address, of which nothing else is known: both sides choke, and neither wants
    /// anything.
    pub open spec fn is_new(self, socket_addr: SocketAddrV4) -> bool {
        &&& self.socket_addr == socket_addr
        &&& self.peer_id@ == Seq::<char>::empty()
        &&& self.am_choking
        &&& !self.am_interested
        &&& self.peer_choking
        &&& !self.peer_interested
    }

    /// A peer at an address, of which nothing else is known.
    pub fn new(socket_addr: SocketAddrV4) -> (peer: Self)
        ensures
            peer.is_new(socket_addr),
    {
        let mut peer = Peer::default();
        peer.socket_addr = socket_addr;
        peer
    }

    /// The peer at the address that the first six bytes hold, if there are as many.
    pub fn from_bytes(b: &[u8]) -> (peer: Option<Self>)
        ensures
            match peer {
                Some(peer) => b@.len() >= 6 && peer.is_new(peer.socket_addr) && address::holds(
                    b@.subrange(0, 6),
                    peer.socket_addr,
                ),
                None => b@.len() < 6,
            },
    {
        if b.len() < 6 {
            return None;
        }
        Some(Peer::new(address::read_compact(b, 0)))
    }
}

impl Default for Peer {
    /// A peer at no address.
    fn default() -> (peer: Self)
        ensures
            peer.is_new(peer.socket_addr),
            peer.socket_addr.ip@ == seq![0u8, 0u8, 0u8, 0u8],
            peer.socket_addr.port == 0,
    {
        let ip = [0u8, 0u8, 0u8, 0u8];
        assert(ip@ =~= seq![0u8, 0u8, 0u8, 0u8]);
        Peer {
            socket_addr: SocketAddrV4 { ip, port: 0 },
            peer_id: String::new(),
            am_choking: true,
            am_interested: false,
            peer_choking: true,
            peer_interested: false,
        }
    }
}

/// What the writing half of a direct session remembers.
#[derive(Debug)]
pub struct DirectWriter {
    /// Whether the peer has last been told that the client wants something.
    pub am_interested: bool,
    /// The blocks that have been asked for and received.
    pub requested: Pieces,
}

/// What the writing half remembers, seen from outside.
#[verifier::ext_equal]
pub struct DirectModel {
    /// Whether the peer has last been told that the client wants something.
    pub told: bool,
    /// The blocks that have been asked for and received.
    pub pool: PoolModel,
}

impl View for DirectWriter {
    type V = DirectModel;

    open spec fn view(&self) -> DirectModel {
        DirectModel { told: self.am_interested, pool: self.requested@ }
    }
}

impl DirectModel {
    /// The pool is that of the torrent, and counts every request.
    pub open spec fn wf(self, metadata: Metadata) -> bool {
        &&& requests::nameable(metadata)
        &&& requests::fits_torrent(self.pool.blocks, metadata)
        &&& self.pool.wf()
    }
}

/// The pool after an update. An update that the session does not know changes nothing.
pub open spec fn pool_after(
    pool: PoolModel,
    update: Result<ThreadUpdate, TryRecvError>,
) -> PoolModel {
    match update {
        Ok(ThreadUpdate::Downloaded(piece, block)) => pool.block_received(
            piece as int,
            block as int,
        ),
        Ok(ThreadUpdate::Completed(piece)) => pool.piece_received(piece as int),
        _ => pool,
    }
}

/// The bytes that a round sends: the announcement of a piece, a change of interest, a request.
pub open spec fn round_bytes(
    metadata: Metadata,
    update: Result<ThreadUpdate, TryRecvError>,
    told: bool,
    wanted: bool,
    found: Option<(u32, u32)>,
) -> Seq<u8> {
    let announced = match update {
        Ok(ThreadUpdate::Completed(piece)) => writing::announces(piece),
        _ => Seq::empty(),
    };
    announced + peer::interest_bytes(told, wanted) + writing::asks(metadata, true, found)
}

/// Writes the header of a message.
fn send_header(bytes: &mut Vec<u8>, header: &Message)
    ensures
        final(bytes)@ == old(bytes)@ + header_message::header_bytes(*header),
{
    let mut write_buf = buffer::new();
    buffer::extend_from_slice(&mut write_buf, header.as_bytes().as_slice());
    wire::append(bytes, buffer::as_slice(&write_buf));
    assert(bytes@ =~= old(bytes)@ + header_message::header_bytes(*header));
}

/// What a round may do, unless nobody can send updates any more.
pub open spec fn rounds(
    before: DirectModel,
    after: DirectModel,
    metadata: Metadata,
    update: Result<ThreadUpdate, TryRecvError>,
    choked: bool,
    mine: Seq<u8>,
    theirs: Seq<u8>,
    bytes: Seq<u8>,
) -> bool {
    let updated = pool_after(before.pool, update);
    let wanted = peer::lacks(mine, theirs);
    &&& after.told == wanted
    &&& if choked {
        after.pool == updated && bytes == round_bytes(metadata, update, before.told, wanted, None)
    } else {
        exists|found: Option<(u32, u32)>| #[trigger]
            updated.draws(message::set_below(theirs, 8 * theirs.len() as int), after.pool, found)
                && bytes == round_bytes(metadata, update, before.told, wanted, found)
    }
}

/// An update keeps the writing half well formed.
proof fn updated_pools_fit(
    before: DirectModel,
    metadata: Metadata,
    update: Result<ThreadUpdate, TryRecvError>,
)
    requires
        before.wf(metadata),
    ensures
        requests::fits_torrent(pool_after(before.pool, update).blocks, metadata),
{
    let pool = before.pool;
    let after = pool_after(pool, update);
    assert forall|p: int| 0 <= p < after.blocks.len() implies #[trigger] after.blocks[p].len()
        == blocks::blocks_in(
        blocks::piece_size(
            p,
            metadata.info.torr_type.total() as int,
            metadata.info.piece_length as int,
        ),
    ) by {
        assert(pool.blocks[p].len() == after.blocks[p].len());
    }
}

/// Where the peer has only pieces that exist, a block of them can be drawn.
proof fn peers_pieces_can_be_drawn(pool: PoolModel, metadata: Metadata, theirs: Seq<u8>)
    requires
        requests::nameable(metadata),
        requests::fits_torrent(pool.blocks, metadata),
        8 * theirs.len() <= usize::MAX,
        forall|i: int|
            0 <= i < 8 * theirs.len() && #[trigger] bits::bit_at(theirs, i) ==> i
                < metadata.piece_count(),
    ensures
        pool.can_draw(message::set_below(theirs, 8 * theirs.len() as int)),
{
    let listed = message::set_below(theirs, 8 * theirs.len() as int);
    message::set_positions_are_those_of_ones(theirs, 8 * theirs.len() as int);
    assert forall|i: int| 0 <= i < listed.len() implies listed[i] < pool.blocks.len() by {
        assert(listed.contains(listed[i]));
    }
}

impl DirectWriter {
    /// The writing half at the start of a session: nothing has been asked for.
    pub fn new(metadata: &Metadata) -> (writer: Self)
        requires
            requests::nameable(*metadata),
        ensures
            !writer@.told,
            writer@.wf(*metadata),
            writer@.pool.blocks == pieces::fresh_grid(
                metadata.info.torr_type.total() as int,
                metadata.info.piece_length as int,
            ),
            writer@.pool.num_requested == 0,
            writer@.pool.num_downloaded == 0,
            writer@.pool.request_limit == 3,
    {
        let total: u64 = metadata.info.torr_type.len();
        let piece_length: u64 = metadata.info.piece_length;
        proof {
            blocks::ceil_div_covers(piece_length as int, BLOCK_SIZE as int);
            requests::fresh_grids_fit(*metadata);
        }
        DirectWriter { am_interested: false, requested: Pieces::from_file_info(total, piece_length) }
    }

    /// Takes in an update, if there is one, and then tells the peer of a change of interest and,
    /// unless it is choking the client, asks it for one more block. A receiver that was too slow is
    /// not provided for.
    pub fn round(
        &mut self,
        metadata: &Metadata,
        update: Result<ThreadUpdate, TryRecvError>,
        choked: bool,
        my_bitfield: &BitField,
        peer_bitfield: &BitField,
    ) -> (round: Round)
        requires
            old(self)@.wf(*metadata),
            !(update matches Err(TryRecvError::Lagged(_))),
            my_bitfield.settable == peer_bitfield.settable,
            8 * peer_bitfield@.len() <= usize::MAX,
            forall|i: int|
                0 <= i < 8 * peer_bitfield@.len() && #[trigger] bits::bit_at(peer_bitfield@, i)
                    ==> i < metadata.piece_count(),
        ensures
            final(self)@.wf(*metadata),
            round.stop == (update == Err::<ThreadUpdate, TryRecvError>(TryRecvError::Closed)),
            if round.stop {
                final(self)@ == old(self)@ && round.bytes@ == Seq::<u8>::empty()
            } else {
                rounds(
                    old(self)@,
                    final(self)@,
                    *metadata,
                    update,
                    choked,
                    my_bitfield@,
                    peer_bitfield@,
                    round.bytes@,
                )
            },
    {
        let mut bytes: Vec<u8> = Vec::new();
        match update {
            Err(TryRecvError::Empty) => {},
            Err(_) => {
                return Round { bytes, stop: true };
            },
            Ok(ThreadUpdate::Downloaded(piece, block)) => {
                self.requested.finish_request(piece as usize, block as usize);
            },
            Ok(ThreadUpdate::Completed(piece)) => {
                self.requested.complete_piece(piece);
                send_header(&mut bytes, &Message::have());
                wire::append(&mut bytes, wire::u32_to_be(piece).as_slice());
            },
            Ok(_) => {},
        }
        let ghost updated = pool_after(old(self)@.pool, update);
        let ghost told = self@.told;
        proof {
            assert(self@.pool =~= updated);
            updated_pools_fit(old(self)@, *metadata, update);
        }
        let wanted = match my_bitfield.has_other(peer_bitfield) {
            Ok(found) => found,
            Err(_) => false,
        };
        if wanted && !self.am_interested {
            send_header(&mut bytes, &Message::interested());
            self.am_interested = true;
        }
        if !wanted && self.am_interested {
            send_header(&mut bytes, &Message::not_interested());
            self.am_interested = false;
        }
        assert(bytes@ =~= round_bytes(*metadata, update, told, wanted, None));
        if !choked {
            proof {
                peers_pieces_can_be_drawn(updated, *metadata, peer_bitfield@);
            }
            let peer_has = peer_bitfield.set_bits();
            let ghost listed = peer_has@;
            let found = self.requested.request_new(peer_has);
            proof {
                requests::rows_are_short(updated.blocks, *metadata);
                pool::drawn_blocks_are_new(updated, listed, self@.pool, found);
                if let Some((piece, block)) = found {
                    assert(updated.blocks[piece as int].len() > block);
                    asked_pools_fit(updated, piece as int, block as int, *metadata);
                }
            }
            let request = writing::ask_for(metadata, true, found);
            wire::append(&mut bytes, request.as_slice());
            assert(bytes@ =~= round_bytes(*metadata, update, told, wanted, found));
        }
        Round { bytes, stop: false }
    }
}

/// A request keeps the rows of the pool as long as they are.
proof fn asked_pools_fit(pool: PoolModel, piece: int, block: int, metadata: Metadata)
    requires
        requests::fits_torrent(pool.blocks, metadata),
        0 <= piece < pool.blocks.len(),
        0 <= block < pool.blocks[piece].len(),
    ensures
        requests::fits_torrent(pool.asked_for(piece, block).blocks, metadata),
{
    let after = pool.asked_for(piece, block);
    assert forall|p: int| 0 <= p < after.blocks.len() implies #[trigger] after.blocks[p].len()
        == blocks::blocks_in(
        blocks::piece_size(
            p,
            metadata.info.torr_type.total() as int,
            metadata.info.piece_length as int,
        ),
    ) by {
        assert(pool.blocks[p].len() == after.blocks[p].len());
    }
}

/// An update marks in a pool what it reports, and an update that reports nothing changes nothing.
pub proof fn pools_take_updates(pool: PoolModel, update: Result<ThreadUpdate, TryRecvError>)
    ensures
        pool_after(pool, update) == (match update {
            Ok(ThreadUpdate::Downloaded(piece, block)) => pool.block_received(
                piece as int,
                block as int,
            ),
            Ok(ThreadUpdate::Completed(piece)) => pool.piece_received(piece as int),
            Ok(ThreadUpdate::FileComplete) | Ok(ThreadUpdate::Disconnect) => pool,
            Err(_) => pool,
        }),
{
}

/// A round announces a piece that is complete, by a header of 5 and 4 and four bytes that spell it,
/// then tells of a change of interest, and then asks for the block that has been found, by a header
/// of 13 and 6 and three numbers. Nothing is sent of what there is not.
pub proof fn rounds_are_spelled_out(
    metadata: Metadata,
    update: Result<ThreadUpdate, TryRecvError>,
    told: bool,
    wanted: bool,
    found: Option<(u32, u32)>,
)
    requires
        requests::nameable(metadata),
        found matches Some((piece, block)) ==> requests::exists_in(metadata, piece, block),
    ensures
        ({
            let bytes = round_bytes(metadata, update, told, wanted, found);
            let completed = update matches Ok(news) && news is Completed;
            let announced = if completed { 9int } else { 0 };
            let changed = if told != wanted { 5int } else { 0 };
            let start = announced + changed;
            &&& bytes.len() == start + (if found is Some { 17int } else { 0 })
            &&& update matches Ok(ThreadUpdate::Completed(piece)) ==> {
                &&& bytes.take(5) == seq![0u8, 0u8, 0u8, 5u8, 4u8]
                &&& wire::value(bytes.subrange(5, 9)) == piece
            }
            &&& told != wanted ==> bytes.subrange(announced, start) == seq![
                0u8,
                0u8,
                0u8,
                1u8,
                if wanted {
                    2u8
                } else {
                    3u8
                },
            ]
            &&& found matches Some((piece, block)) ==> {
                &&& bytes.subrange(start, start + 5) == seq![0u8, 0u8, 0u8, 13u8, 6u8]
                &&& wire::value(bytes.subrange(start + 5, start + 9)) == piece
                &&& wire::value(bytes.subrange(start + 9, start + 13)) == block * 16384
                &&& wire::value(bytes.subrange(start + 13, start + 17)) == requests::size_of_block(
                    metadata,
                    piece,
                    block,
                )
            }
        }),
{
    let bytes = round_bytes(metadata, update, told, wanted, found);
    let completed = update matches Ok(news) && news is Completed;
    let announced = if completed { 9int } else { 0 };
    let changed = if told != wanted { 5int } else { 0 };
    let start = announced + changed;
    writing::bare_messages_are_spelled_out(MessageId::Interested);
    writing::bare_messages_are_spelled_out(MessageId::NotInterested);
    if let Ok(ThreadUpdate::Completed(piece)) = update {
        let two = seq![0u8, 0u8];
        let four = two + two;
        wire::integers_are_spelled_out(0, piece, 0, two, four, four + four);
        assert(bytes.take(5) =~= seq![0u8, 0u8, 0u8, 5u8, 4u8]);
        assert(bytes.subrange(5, 9) =~= wire::be32(piece));
    }
    if told != wanted {
        assert(bytes.subrange(announced, start) =~= peer::interest_bytes(told, wanted));
    }
    writing::found_blocks_are_asked_for(metadata, true, found);
    if found is Some {
        let asked = writing::asks(metadata, true, found);
        assert(bytes.subrange(start, start + 5) =~= asked.take(5));
        assert(bytes.subrange(start + 5, start + 9) =~= asked.subrange(5, 9));
        assert(bytes.subrange(start + 9, start + 13) =~= asked.subrange(9, 13));
        assert(bytes.subrange(start + 13, start + 17) =~= asked.subrange(13, 17));
    }
}

/// After a round the peer has been told whether it has a piece that the client lacks. One that is
/// choking the client is asked for nothing, and another one for a block that is then marked as asked
/// for, wherever there is room and a piece that it has has a block that has not been.
pub proof fn direct_rounds_ask_unless_choked(
    before: DirectModel,
    after: DirectModel,
    metadata: Metadata,
    update: Result<ThreadUpdate, TryRecvError>,
    choked: bool,
    mine: Seq<u8>,
    theirs: Seq<u8>,
    bytes: Seq<u8>,
)
    requires
        rounds(before, after, metadata, update, choked, mine, theirs, bytes),
        before.wf(metadata),
        8 * theirs.len() <= usize::MAX,
        forall|i: int|
            0 <= i < 8 * theirs.len() && #[trigger] bits::bit_at(theirs, i) ==> i
                < metadata.piece_count(),
    ensures
        ({
            let updated = pool_after(before.pool, update);
            &&& after.told <==> exists|i: int|
                0 <= i < 8 * mine.len() && i < 8 * theirs.len() && !bits::bit_at(mine, i)
                    && #[trigger] bits::bit_at(theirs, i)
            &&& choked ==> after.pool == updated && bytes == round_bytes(
                metadata,
                update,
                before.told,
                after.told,
                None,
            )
            &&& !choked ==> exists|found: Option<(u32, u32)>|
                {
                    &&& bytes == #[trigger] round_bytes(
                        metadata,
                        update,
                        before.told,
                        after.told,
                        found,
                    )
                    &&& found is None ==> after.pool == updated
                    &&& found matches Some((piece, block)) ==> {
                        &&& requests::exists_in(metadata, piece, block)
                        &&& bits::bit_at(theirs, piece as int)
                        &&& updated.blocks[piece as int][block as int] == BlockState::UnRequested
                        &&& after.pool.blocks[piece as int][block as int] == BlockState::Requested
                    }
                    &&& found is Some <==> updated.num_requested < updated.request_limit && (exists|
                        i: int,
                        b: int,
                    |
                        0 <= i < 8 * theirs.len() && bits::bit_at(theirs, i) && 0 <= b
                            < updated.blocks[i].len() && #[trigger] updated.blocks[i][b]
                            == BlockState::UnRequested)
                }
        }),
{
    let updated = pool_after(before.pool, update);
    let listed = message::set_below(theirs, 8 * theirs.len() as int);
    updated_pools_fit(before, metadata, update);
    peers_pieces_can_be_drawn(updated, metadata, theirs);
    message::set_positions_are_those_of_ones(theirs, 8 * theirs.len() as int);
    requests::rows_are_short(updated.blocks, metadata);
    if !choked {
        let found = choose|found: Option<(u32, u32)>| #[trigger]
            updated.draws(listed, after.pool, found) && bytes == round_bytes(
                metadata,
                update,
                before.told,
                after.told,
                found,
            );
        pool::blocks_are_drawn_where_there_are_any(updated, listed, after.pool, found);
        if let Some((piece, block)) = found {
            direct_rounds_ask_for_new_blocks(updated, after.pool, metadata, theirs, piece, block);
        }
        if exists|i: int, b: int|
            0 <= i < listed.len() && 0 <= b < updated.blocks[listed[i] as int].len() && #[trigger]
                updated.blocks[listed[i] as int][b] == BlockState::UnRequested {
            let (i, b) = choose|i: int, b: int|
                0 <= i < listed.len() && 0 <= b < updated.blocks[listed[i] as int].len()
                    && #[trigger] updated.blocks[listed[i] as int][b] == BlockState::UnRequested;
            assert(listed.contains(listed[i]));
            assert(bits::bit_at(theirs, listed[i] as int));
            assert(updated.blocks[listed[i] as int][b] == BlockState::UnRequested);
        }
        if exists|i: int, b: int|
            0 <= i < 8 * theirs.len() && bits::bit_at(theirs, i) && 0 <= b
                < updated.blocks[i].len() && #[trigger] updated.blocks[i][b]
                == BlockState::UnRequested {
            let (i, b) = choose|i: int, b: int|
                0 <= i < 8 * theirs.len() && bits::bit_at(theirs, i) && 0 <= b
                    < updated.blocks[i].len() && #[trigger] updated.blocks[i][b]
                    == BlockState::UnRequested;
            assert(listed.contains(i as usize));
            let k = listed.index_of(i as usize);
            assert(updated.blocks[listed[k] as int][b] == BlockState::UnRequested);
        }
    }
}

/// The block that a round asks for exists, is one of a piece that the peer has, had not been asked for
/// before and is marked as asked for afterwards. Nothing else is marked, and one more request is
/// unanswered.
pub proof fn direct_rounds_ask_for_new_blocks(
    updated: PoolModel,
    after: PoolModel,
    metadata: Metadata,
    theirs: Seq<u8>,
    piece: u32,
    block: u32,
)
    requires
        requests::nameable(metadata),
        requests::fits_torrent(updated.blocks, metadata),
        8 * theirs.len() <= usize::MAX,
        forall|i: int|
            0 <= i < 8 * theirs.len() && #[trigger] bits::bit_at(theirs, i) ==> i
                < metadata.piece_count(),
        updated.draws(
            message::set_below(theirs, 8 * theirs.len() as int),
            after,
            Some((piece, block)),
        ),
    ensures
        requests::exists_in(metadata, piece, block),
        piece < 8 * theirs.len() && bits::bit_at(theirs, piece as int),
        updated.blocks[piece as int][block as int] == BlockState::UnRequested,
        after.blocks[piece as int][block as int] == BlockState::Requested,
        after.num_requested == updated.num_requested + 1,
        updated.num_requested < updated.request_limit,
        after.blocks.len() == updated.blocks.len(),
        forall|p: int, b: int|
            0 <= p < updated.blocks.len() && 0 <= b < updated.blocks[p].len() && (p != piece || b
                != block) ==> #[trigger] after.blocks[p][b] == updated.blocks[p][b],
{
    let listed = message::set_below(theirs, 8 * theirs.len() as int);
    peers_pieces_can_be_drawn(updated, metadata, theirs);
    message::set_positions_are_those_of_ones(theirs, 8 * theirs.len() as int);
    requests::rows_are_short(updated.blocks, metadata);
    assert forall|p: int| 0 <= p < updated.blocks.len() implies (#[trigger] updated.blocks[p]).len()
        <= u32::MAX + 1 && updated.blocks[p].len() <= usize::MAX by {
        assert(updated.blocks[p].len() <= u32::MAX);
    }
    pool::drawn_blocks_are_new(updated, listed, after, Some((piece, block)));
    assert(updated.blocks[piece as int].len() == blocks::blocks_in(
        blocks::piece_size(
            piece as int,
            metadata.info.torr_type.total() as int,
            metadata.info.piece_length as int,
        ),
    ));
}

/// Of a new peer only the address is known. Both sides choke, and neither is interested.
pub proof fn new_peers_choke_and_want_nothing(peer: Peer, socket_addr: SocketAddrV4)
    ensures
        peer.is_new(socket_addr) <==> {
            &&& peer.socket_addr == socket_addr
            &&& peer.peer_id@.len() == 0
            &&& peer.am_choking && peer.peer_choking
            &&& !peer.am_interested && !peer.peer_interested
        },
{
    if peer.peer_id@.len() == 0 {
        assert(peer.peer_id@ =~= Seq::<char>::empty());
    }
}

} // verus!
