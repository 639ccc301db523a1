//! The writing half of a session.
use crate::bits;
use crate::bits::PieceBits;
use crate::message as field;
use crate::parsing::Metadata;
use crate::peer::blocks;
use crate::peer::blocks::BLOCK_SIZE;
use crate::peer::connection;
use crate::peer::connection::Step;
use crate::peer::history;
use crate::peer::message;
use crate::peer::message::{Message, MessageId};
use crate::peer::peer;
use crate::peer::pieces;
use crate::peer::pieces::{PieceTracker, TrackerModel};
use crate::peer::requests;
use crate::peer::state;
use crate::peer::state::{PeerState, StateModel};
use crate::peer::BlockState;
use crate::wire;
use crate::{RecvError, ThreadUpdate};
use vstd::prelude::*;

verus! {

/// The bytes of a message that is only a header.
pub open spec fn bare(id: MessageId) -> Seq<u8> {
    message::header_bytes(Message { length: 1, message_id: Some(id) })
}

/// A byte string that has a bit for every piece, and no more bytes than that takes.
pub open spec fn holds_bits(payload: Seq<u8>, mine: Seq<bool>) -> bool {
    &&& payload.len() == (mine.len() + 7) / 8
    &&& forall|i: int| 0 <= i < mine.len() ==> #[trigger] mine[i] == bits::bit_at(payload, i)
}

/// The bytes of a message that tells which pieces are there, as bits.
pub open spec fn bit_message(payload: Seq<u8>) -> Seq<u8> {
    message::header_bytes(
        Message { length: (1 + payload.len()) as u32, message_id: Some(MessageId::BitField) },
    ) + payload
}

/// Some piece is there.
pub open spec fn has_some(mine: Seq<bool>) -> bool {
    exists|i: int| 0 <= i < mine.len() && mine[i]
}

/// What is sent first, before the client stops choking. The pieces that are there are given once as
/// bits and once as the bytes that hold these.
pub open spec fn introduction(fast: bool, mine: Seq<bool>, raw: Seq<u8>) -> Seq<u8> {
    if fast {
        if connection::complete(mine) {
            bare(MessageId::HaveAll)
        } else if !has_some(mine) {
            bare(MessageId::HaveNone)
        } else {
            Seq::empty()
        }
    } else if has_some(mine) {
        bit_message(raw)
    } else {
        Seq::empty()
    }
}

/// All that is sent first: which pieces are there, and that the client stops choking.
pub open spec fn greeting(fast: bool, mine: Seq<bool>, raw: Seq<u8>) -> Seq<u8> {
    introduction(fast, mine, raw) + bare(MessageId::UnChoke)
}

/// The state after what is sent first.
pub open spec fn greeted(state: StateModel) -> StateModel {
    StateModel { am_choking: false, ..state }
}

/// The length of a message that tells which of `count` pieces are there fits in its header.
pub open spec fn bits_fit(count: int) -> bool {
    1 + (count + 7) / 8 <= u32::MAX
}

/// Writes the message that tells which pieces are there.
pub fn send_bitfield(my_bitfield: &PieceBits) -> (bytes: Vec<u8>)
    requires
        bits_fit(my_bitfield@.len() as int),
    ensures
        bytes@ == bit_message(bits::raw_of(*my_bitfield)),
        holds_bits(bytes@.skip(5), my_bitfield@),
        bits::spare_is_clear(*my_bitfield) ==> bits::tail_is_clear(
            bytes@.skip(5),
            my_bitfield@.len() as int,
        ),
{
    let payload = my_bitfield.as_raw_slice();
    assert(holds_bits(payload@, my_bitfield@));
    let header = Message {
        length: 1 + payload.len() as u32,
        message_id: Some(MessageId::BitField),
    };
    let mut bytes = header.as_bytes();
    wire::append(&mut bytes, payload);
    assert(bytes@.skip(5) =~= payload@);
    bytes
}

/// Writes what is sent first, and stops choking.
pub fn greet(state: &mut PeerState, my_bitfield: &PieceBits) -> (bytes: Vec<u8>)
    requires
        bits_fit(my_bitfield@.len() as int),
    ensures
        final(state)@ == greeted(old(state)@),
        bytes@ == greeting(old(state)@.fast, my_bitfield@, bits::raw_of(*my_bitfield)),
        !old(state)@.fast && has_some(my_bitfield@) ==> holds_bits(
            bits::raw_of(*my_bitfield),
            my_bitfield@,
        ),
{
    let mut bytes: Vec<u8> = Vec::new();
    if state.reserved.supports_fast() {
        if my_bitfield.all() {
            bytes = Message::have_all().as_bytes();
        } else if !my_bitfield.any() {
            bytes = Message::have_none().as_bytes();
        }
    } else if my_bitfield.any() {
        bytes = send_bitfield(my_bitfield);
        assert(bytes@.skip(5) =~= bits::raw_of(*my_bitfield));
    }
    wire::append(&mut bytes, Message::unchoke().as_bytes().as_slice());
    state.am_choking = false;
    bytes
}

/// What the writing half of a session remembers.
#[derive(Debug)]
pub struct Writer {
    /// Whether the peer has last been told that the client wants something.
    pub am_interested: bool,
    /// The blocks that have been asked for and received.
    pub requested: PieceTracker,
}

/// What the writing half remembers, seen from outside.
#[verifier::ext_equal]
pub struct WriterModel {
    /// Whether the peer has last been told that the client wants something.
    pub told: bool,
    /// The blocks that have been asked for and received.
    pub tracker: TrackerModel,
}

impl View for Writer {
    type V = WriterModel;

    open spec fn view(&self) -> WriterModel {
        WriterModel { told: self.am_interested, tracker: self.requested@ }
    }
}

impl WriterModel {
    /// The tracker is that of the torrent, and counts every request.
    pub open spec fn wf(self, metadata: Metadata) -> bool {
        &&& requests::nameable(metadata)
        &&& requests::fits_torrent(self.tracker.blocks, metadata)
        &&& self.tracker.wf()
        &&& self.tracker.num_requested <= self.tracker.pipeline_len
    }
}

/// What the writing half has to do after an update.
#[derive(Debug)]
pub struct Reaction {
    /// The bytes to send.
    pub bytes: Vec<u8>,
    /// Whether whoever waits for a change of interest has to be woken.
    pub notify_interest: bool,
    /// Whether the session is over.
    pub stop: bool,
}

/// A reaction, seen from outside.
#[verifier::ext_equal]
pub struct ReactionModel {
    /// The bytes to send.
    pub bytes: Seq<u8>,
    /// Whether whoever waits for a change of interest has to be woken.
    pub notify_interest: bool,
    /// Whether the session is over.
    pub stop: bool,
}

impl View for Reaction {
    type V = ReactionModel;

    open spec fn view(&self) -> ReactionModel {
        ReactionModel {
            bytes: self.bytes@,
            notify_interest: self.notify_interest,
            stop: self.stop,
        }
    }
}

/// The bytes that announce a piece.
pub open spec fn announces(piece: u32) -> Seq<u8> {
    message::header_bytes(Message { length: 5, message_id: Some(MessageId::Have) }) + wire::be32(
        piece,
    )
}

/// The tracker after an update.
pub open spec fn tracker_after(
    tracker: TrackerModel,
    update: Result<ThreadUpdate, RecvError>,
) -> TrackerModel {
    match update {
        Ok(ThreadUpdate::Downloaded(piece, block)) => tracker.block_received(
            piece as int,
            block as int,
        ),
        Ok(ThreadUpdate::Completed(piece)) => tracker.piece_received(piece as int),
        _ => tracker,
    }
}

/// A piece has been completed, and now the peer has nothing that the client lacks.
pub open spec fn loses_interest(
    mine: Seq<bool>,
    theirs: Seq<bool>,
    update: Result<ThreadUpdate, RecvError>,
) -> bool {
    update matches Ok(ThreadUpdate::Completed(_)) && !state::wants(mine, theirs)
}

/// The state after an update.
pub open spec fn state_after(
    state: StateModel,
    mine: Seq<bool>,
    update: Result<ThreadUpdate, RecvError>,
) -> StateModel {
    if loses_interest(mine, state.theirs, update) {
        StateModel { am_interested: false, ..state }
    } else {
        state
    }
}

/// The reaction to an update.
pub open spec fn reaction_to(
    tracker: TrackerModel,
    mine: Seq<bool>,
    theirs: Seq<bool>,
    metadata: Metadata,
    update: Result<ThreadUpdate, RecvError>,
) -> ReactionModel {
    ReactionModel {
        bytes: match update {
            Ok(ThreadUpdate::Completed(piece)) => announces(piece),
            Ok(ThreadUpdate::FileComplete) => requests::cancels(
                metadata,
                pieces::pending(tracker.blocks, tracker.blocks.len() as int),
            ),
            _ => Seq::empty(),
        },
        notify_interest: loses_interest(mine, theirs, update),
        stop: update == Err::<ThreadUpdate, RecvError>(RecvError::Closed) || update == Ok::<
            ThreadUpdate,
            RecvError,
        >(ThreadUpdate::Disconnect),
    }
}

/// What to do with a request of the peer.
#[derive(Copy, Clone, Debug, PartialEq, Eq, Structural)]
pub enum Answer {
    /// Nothing, because the client is choking the peer.
    Ignore,
    /// End the session, because the peer asks for a piece that the client does not have.
    Sever,
    /// Send the block.
    Serve,
}

/// What to do with a request of the peer for a block of `piece`.
pub open spec fn answer_to(am_choking: bool, mine: Seq<bool>, piece: u32) -> Answer {
    if am_choking {
        Answer::Ignore
    } else if piece < mine.len() && mine[piece as int] {
        Answer::Serve
    } else {
        Answer::Sever
    }
}

/// Decides on a request of the peer for a block of `piece`.
pub fn answer_request(state: &PeerState, my_bitfield: &PieceBits, piece: u32) -> (answer: Answer)
    ensures
        answer == answer_to(state@.am_choking, my_bitfield@, piece),
{
    if state.am_choking {
        return Answer::Ignore;
    }
    match my_bitfield.get(piece as usize) {
        Some(true) => Answer::Serve,
        _ => Answer::Sever,
    }
}

/// The bytes of a message that brings a block.
pub open spec fn brings(piece: u32, begin: u32, data: Seq<u8>) -> Seq<u8> {
    message::header_bytes(
        Message { length: (data.len() + 9) as u32, message_id: Some(MessageId::Piece) },
    ) + wire::be32(piece) + wire::be32(begin) + data
}

/// Writes the message that brings a block.
pub fn send_block(piece: u32, begin: u32, data: &[u8]) -> (bytes: Vec<u8>)
    requires
        data@.len() + 9 <= u32::MAX,
    ensures
        bytes@ == brings(piece, begin, data@),
{
    let header = Message { length: data.len() as u32 + 9, message_id: Some(MessageId::Piece) };
    let mut bytes = header.as_bytes();
    wire::append(&mut bytes, wire::u32_to_be(piece).as_slice());
    wire::append(&mut bytes, wire::u32_to_be(begin).as_slice());
    wire::append(&mut bytes, data);
    bytes
}

/// The bytes that ask for a block, where the client wants something and a block has been found.
pub open spec fn asks(metadata: Metadata, interested: bool, found: Option<(u32, u32)>) -> Seq<u8> {
    match found {
        Some((piece, block)) => if interested {
            requests::block_message(requests::request_header(), metadata, piece, block)
        } else {
            Seq::empty()
        },
        None => Seq::empty(),
    }
}

/// Writes the request for the block that has been found, if the client wants something.
pub fn ask_for(metadata: &Metadata, am_interested: bool, found: Option<(u32, u32)>) -> (bytes: Vec<
    u8,
>)
    requires
        requests::nameable(*metadata),
        found matches Some((piece, block)) ==> requests::exists_in(*metadata, piece, block),
    ensures
        bytes@ == asks(*metadata, am_interested, found),
{
    match found {
        Some((piece, block)) => if am_interested {
            requests::write_block_message(&Message::request(), metadata, piece, block)
        } else {
            Vec::new()
        },
        None => Vec::new(),
    }
}

/// What one more round may do: a peer that is choking the client is asked for nothing, and another
/// one for a block, where one is found and the client wants something.
pub open spec fn asks_once(
    before: WriterModel,
    after: WriterModel,
    state: StateModel,
    metadata: Metadata,
    bytes: Seq<u8>,
) -> bool {
    if state.peer_choking {
        after == before && bytes == Seq::<u8>::empty()
    } else {
        exists|found: Option<(u32, u32)>| #[trigger]
            before.tracker.requests(
                bits::positions_of_ones(state.theirs),
                after.tracker,
                found,
            ) && bytes == asks(metadata, state.am_interested, found)
    }
}

impl Writer {
    /// The writing half at the start of a session: nothing has been asked for, and the pieces that
    /// the client has count as received.
    pub fn new(metadata: &Metadata, my_bitfield: &PieceBits) -> (writer: Self)
        requires
            requests::nameable(*metadata),
            my_bitfield@.len() == metadata.piece_count(),
        ensures
            !writer@.told,
            writer@.wf(*metadata),
            writer@.tracker == history::fresh(
                metadata.info.torr_type.total() as int,
                metadata.info.piece_length as int,
            ).set_received(my_bitfield@),
            writer@.tracker == (TrackerModel {
                blocks: writer@.tracker.blocks,
                num_requested: 0,
                pipeline_len: 5,
                requested: None,
            }),
            forall|p: int|
                0 <= p < metadata.piece_count() ==> #[trigger] writer@.tracker.blocks[p]
                    == pieces::uniform(
                    blocks::blocks_in(
                        blocks::piece_size(
                            p,
                            metadata.info.torr_type.total() as int,
                            metadata.info.piece_length as int,
                        ),
                    ),
                    if my_bitfield@[p] {
                        BlockState::Completed
                    } else {
                        BlockState::UnRequested
                    },
                ),
    {
        let total: u64 = metadata.info.torr_type.len();
        let piece_length: u64 = metadata.info.piece_length;
        proof {
            blocks::ceil_div_covers(total as int, piece_length as int);
            blocks::ceil_div_covers(piece_length as int, BLOCK_SIZE as int);
            requests::fresh_grids_fit(*metadata);
        }
        let mut requested = PieceTracker::from_file_info(total, piece_length);
        let ghost fresh = requested@.blocks;
        requested.update(my_bitfield);
        proof {
            assert forall|p: int| 0 <= p < fresh.len() implies #[trigger] requested@.blocks[p].len()
                == fresh[p].len() by {}
            assert(requests::fits_torrent(requested@.blocks, *metadata)) by {
                assert forall|p: int|
                    0 <= p < requested@.blocks.len() implies #[trigger] requested@.blocks[p].len()
                    == blocks::blocks_in(
                    blocks::piece_size(p, total as int, piece_length as int),
                ) by {
                    assert(fresh[p].len() == requested@.blocks[p].len());
                }
            }
        }
        Writer { am_interested: false, requested }
    }

    /// Takes in an update. A receiver that was too slow is not provided for.
    pub fn process_message(
        &mut self,
        state: &mut PeerState,
        my_bitfield: &PieceBits,
        metadata: &Metadata,
        update: Result<ThreadUpdate, RecvError>,
    ) -> (reaction: Reaction)
        requires
            old(self)@.wf(*metadata),
            !(update matches Err(RecvError::Lagged(_))),
        ensures
            final(self)@ == (WriterModel {
                tracker: tracker_after(old(self)@.tracker, update),
                ..old(self)@
            }),
            final(self)@.wf(*metadata),
            final(state)@ == state_after(old(state)@, my_bitfield@, update),
            reaction@ == reaction_to(
                old(self)@.tracker,
                my_bitfield@,
                old(state)@.theirs,
                *metadata,
                update,
            ),
    {
        proof {
            updated_trackers_fit(self@, *metadata, update);
        }
        match update {
            Err(_) => Reaction { bytes: Vec::new(), notify_interest: false, stop: true },
            Ok(ThreadUpdate::Downloaded(piece, block)) => {
                self.requested.mark_block_as_downloaded(piece as usize, block as usize);
                assert(self@.tracker =~= tracker_after(old(self)@.tracker, update));
                Reaction { bytes: Vec::new(), notify_interest: false, stop: false }
            },
            Ok(ThreadUpdate::Completed(piece)) => {
                self.requested.mark_piece_as_downloaded(piece as usize);
                assert(self@.tracker =~= tracker_after(old(self)@.tracker, update));
                let mut bytes = Message::have().as_bytes();
                wire::append(&mut bytes, wire::u32_to_be(piece).as_slice());
                if !state.should_be_interested(my_bitfield) {
                    state.am_interested = false;
                    Reaction { bytes, notify_interest: true, stop: false }
                } else {
                    Reaction { bytes, notify_interest: false, stop: false }
                }
            },
            Ok(ThreadUpdate::FileComplete) => {
                proof {
                    requests::pending_requests_exist(self@.tracker.blocks, *metadata);
                }
                let pending = self.requested.pending_requests();
                let bytes = requests::cancel_requests(metadata, &pending);
                Reaction { bytes, notify_interest: false, stop: false }
            },
            Ok(ThreadUpdate::Disconnect) => Reaction {
                bytes: Vec::new(),
                notify_interest: false,
                stop: true,
            },
        }
    }

    /// Asks for one more block, unless the peer is choking the client. A block is set aside as asked
    /// for even while nothing is sent for want of interest.
    pub fn send_one_round(&mut self, state: &PeerState, metadata: &Metadata) -> (bytes: Vec<u8>)
        requires
            old(self)@.wf(*metadata),
        ensures
            final(self)@.wf(*metadata),
            final(self)@.told == old(self)@.told,
            asks_once(old(self)@, final(self)@, state@, *metadata, bytes@),
    {
        if state.peer_choking {
            return Vec::new();
        }
        let peer_has = state.peer_bitfield.iter_ones();
        let found = self.requested.request(peer_has);
        proof {
            requests::requests_name_blocks(
                old(self)@.tracker,
                bits::positions_of_ones(state@.theirs),
                self@.tracker,
                found,
                *metadata,
            );
            pieces::requests_stay_within_pipeline(
                old(self)@.tracker,
                bits::positions_of_ones(state@.theirs),
                self@.tracker,
                found,
            );
        }
        ask_for(metadata, state.am_interested, found)
    }

    /// Tells the peer about a change of interest.
    pub fn tell_interest(&mut self, state: &PeerState) -> (bytes: Vec<u8>)
        ensures
            final(self)@ == (WriterModel { told: state@.am_interested, ..old(self)@ }),
            bytes@ == peer::interest_bytes(old(self)@.told, state@.am_interested),
    {
        let mut bytes: Vec<u8> = Vec::new();
        if state.am_interested != self.am_interested {
            if state.am_interested {
                bytes = Message::interested().as_bytes();
            } else {
                bytes = Message::not_interested().as_bytes();
            }
        }
        self.am_interested = state.am_interested;
        bytes
    }
}

/// No more blocks of a piece are asked for than are counted.
proof fn counts_stay_small(tracker: TrackerModel, piece: int)
    requires
        tracker.wf(),
        0 <= piece,
    ensures
        piece < tracker.blocks.len() ==> {
            &&& pieces::outstanding_in_piece(tracker.blocks[piece]) <= tracker.num_requested
            &&& forall|b: int|
                0 <= b < tracker.blocks[piece].len() && #[trigger] tracker.blocks[piece][b]
                    == BlockState::Requested ==> tracker.num_requested >= 1
        },
{
    if piece < tracker.blocks.len() {
        let row = tracker.blocks[piece];
        pieces::outstanding_after_row(tracker.blocks, piece, row);
        assert forall|b: int| 0 <= b < row.len() && #[trigger] row[b]
            == BlockState::Requested implies tracker.num_requested >= 1 by {
            pieces::outstanding_after_block(row, b, BlockState::Completed);
        }
    }
}

/// An update keeps the writing half well formed.
pub proof fn updated_trackers_fit(
    before: WriterModel,
    metadata: Metadata,
    update: Result<ThreadUpdate, RecvError>,
)
    requires
        before.wf(metadata),
    ensures
        ({
            let after = tracker_after(before.tracker, update);
            &&& requests::fits_torrent(after.blocks, metadata)
            &&& after.wf()
            &&& after.num_requested <= after.pipeline_len
        }),
{
    let tracker = before.tracker;
    let after = tracker_after(tracker, update);
    match update {
        Ok(ThreadUpdate::Downloaded(piece, block)) => {
            counts_stay_small(tracker, piece as int);
            if piece < tracker.blocks.len() && block < tracker.blocks[piece as int].len() {
                let row = tracker.blocks[piece as int];
                let new = row.update(block as int, BlockState::Completed);
                pieces::outstanding_after_block(row, block as int, BlockState::Completed);
                pieces::outstanding_after_row(tracker.blocks, piece as int, new);
            }
        },
        Ok(ThreadUpdate::Completed(piece)) => {
            counts_stay_small(tracker, piece as int);
            if piece < tracker.blocks.len() {
                let row = tracker.blocks[piece as int];
                let new = pieces::uniform(row.len() as int, BlockState::Completed);
                pieces::none_outstanding(new);
                pieces::outstanding_after_row(tracker.blocks, piece as int, new);
            }
        },
        _ => {},
    }
    assert forall|p: int| 0 <= p < after.blocks.len() implies #[trigger] after.blocks[p].len()
        == tracker.blocks[p].len() by {}
    tracker_still_fits(tracker, after, metadata);
}

/// A tracker whose rows keep their lengths still fits.
proof fn tracker_still_fits(before: TrackerModel, after: TrackerModel, metadata: Metadata)
    requires
        requests::fits_torrent(before.blocks, metadata),
        after.blocks.len() == before.blocks.len(),
        forall|p: int|
            0 <= p < after.blocks.len() ==> #[trigger] after.blocks[p].len()
                == before.blocks[p].len(),
    ensures
        requests::fits_torrent(after.blocks, metadata),
{
    assert forall|p: int| 0 <= p < after.blocks.len() implies #[trigger] after.blocks[p].len()
        == blocks::blocks_in(
        blocks::piece_size(
            p,
            metadata.info.torr_type.total() as int,
            metadata.info.piece_length as int,
        ),
    ) by {
        assert(before.blocks[p].len() == after.blocks[p].len());
    }
}

/// The number at a position of a payload, where it has been written.
proof fn number_is_read_back(x: u32, payload: Seq<u8>, at: int)
    requires
        0 <= at,
        at + 4 <= payload.len(),
        payload.subrange(at, at + 4) == wire::be32(x),
    ensures
        connection::number_at(payload, at) == x,
{
    wire::be32_round_trip(x, payload.subrange(at, at + 4));
}

/// A request that one client writes makes the other queue exactly that block.
pub proof fn requests_are_understood(
    metadata: Metadata,
    piece: u32,
    block: u32,
    peer: StateModel,
    theirs: Seq<bool>,
    header: Message,
)
    requires
        requests::nameable(metadata),
        requests::exists_in(metadata, piece, block),
        header == requests::request_header() || header == requests::cancel_header(),
    ensures
        ({
            let bytes = requests::block_message(header, metadata, piece, block);
            let payload = bytes.skip(5);
            let size = requests::size_of_block(metadata, piece, block) as u32;
            &&& bytes.take(5) == message::header_bytes(header)
            &&& connection::makes_sense(peer, header, payload)
            &&& connection::steps_after(peer, theirs, metadata, header, payload) == (if header
                == requests::request_header() {
                seq![Step::Queue(piece, (block * BLOCK_SIZE) as u32, size)]
            } else if peer.am_choking {
                Seq::empty()
            } else {
                seq![Step::Queue(piece, (block * BLOCK_SIZE) as u32, 0)]
            })
        }),
{
    let bytes = requests::block_message(header, metadata, piece, block);
    let payload = bytes.skip(5);
    let begin = (block * BLOCK_SIZE) as u32;
    let size = requests::size_of_block(metadata, piece, block) as u32;
    assert(bytes.take(5) =~= message::header_bytes(header));
    assert(payload.subrange(0, 4) =~= wire::be32(piece));
    assert(payload.subrange(4, 8) =~= wire::be32(begin));
    assert(payload.subrange(8, 12) =~= wire::be32(size));
    number_is_read_back(piece, payload, 0);
    number_is_read_back(begin, payload, 4);
    number_is_read_back(size, payload, 8);
}

/// A piece that one client announces is one that the other then knows of.
pub proof fn announcements_are_understood(piece: u32, peer: StateModel, theirs: Seq<bool>)
    requires
        piece < peer.theirs.len(),
    ensures
        ({
            let header = Message { length: 5, message_id: Some(MessageId::Have) };
            let payload = announces(piece).skip(5);
            &&& announces(piece).take(5) == message::header_bytes(header)
            &&& connection::makes_sense(peer, header, payload)
            &&& connection::state_after(peer, theirs, header, payload).theirs
                == peer.theirs.update(piece as int, true)
        }),
{
    let header = Message { length: 5, message_id: Some(MessageId::Have) };
    let payload = announces(piece).skip(5);
    assert(announces(piece).take(5) =~= message::header_bytes(header));
    assert(payload.subrange(0, 4) =~= wire::be32(piece));
    number_is_read_back(piece, payload, 0);
}

/// The pieces that one client tells of at the start are those that the other then knows of, where it
/// knew of none before.
pub proof fn introductions_are_understood(
    payload: Seq<u8>,
    mine: Seq<bool>,
    peer: StateModel,
    theirs: Seq<bool>,
)
    requires
        holds_bits(payload, mine),
        bits_fit(mine.len() as int),
        8 * payload.len() <= bits::max_bits(),
        peer.theirs == Seq::new(mine.len(), |i: int| false),
    ensures
        ({
            let header = Message {
                length: (1 + payload.len()) as u32,
                message_id: Some(MessageId::BitField),
            };
            &&& connection::makes_sense(peer, header, payload)
            &&& connection::state_after(peer, theirs, header, payload).theirs == mine
        }),
{
    assert(connection::joined_bits(peer.theirs, payload) =~= mine);
}

/// The set of pieces that a client sends is one that a session in its plain form accepts: the spare
/// bits are zero, and there are no more bytes than it takes.
pub proof fn sent_fields_are_accepted(payload: Seq<u8>, mine: Seq<bool>)
    requires
        0 < mine.len() <= u64::MAX,
        holds_bits(payload, mine),
        bits::tail_is_clear(payload, mine.len() as int),
    ensures
        field::acceptable(payload, mine.len() as u64),
{
    field::fields_with_zero_spare_bits_are_accepted(payload, mine.len() as u64);
}

/// A block that one client sends is the one that the other writes and reports.
pub proof fn sent_blocks_are_understood(
    metadata: Metadata,
    piece: u32,
    begin: u32,
    data: Seq<u8>,
    peer: StateModel,
    theirs: Seq<bool>,
)
    requires
        data.len() + 9 <= u32::MAX,
    ensures
        ({
            let header = Message {
                length: (data.len() + 9) as u32,
                message_id: Some(MessageId::Piece),
            };
            let payload = brings(piece, begin, data).skip(5);
            &&& brings(piece, begin, data).take(5) == message::header_bytes(header)
            &&& connection::makes_sense(peer, header, payload)
            &&& payload.skip(8) == data
            &&& connection::number_at(payload, 0) == piece
            &&& connection::number_at(payload, 4) == begin
            &&& connection::steps_after(peer, theirs, metadata, header, payload)
                == connection::writes(connection::block_parts(metadata, payload)).push(
                Step::Tell(ThreadUpdate::Downloaded(piece, (begin / BLOCK_SIZE) as u32)),
            )
        }),
{
    let header = Message { length: (data.len() + 9) as u32, message_id: Some(MessageId::Piece) };
    let bytes = brings(piece, begin, data);
    let payload = bytes.skip(5);
    assert(bytes.take(5) =~= message::header_bytes(header));
    assert(payload.subrange(0, 4) =~= wire::be32(piece));
    assert(payload.subrange(4, 8) =~= wire::be32(begin));
    assert(payload.skip(8) =~= data);
    number_is_read_back(piece, payload, 0);
    number_is_read_back(begin, payload, 4);
}

/// While the client's pieces stay the same, an update never leaves the client without interest in a
/// peer that has a piece it lacks.
pub proof fn updates_keep_interest(
    before: StateModel,
    mine: Seq<bool>,
    update: Result<ThreadUpdate, RecvError>,
)
    requires
        state::wants(mine, before.theirs) ==> before.am_interested,
    ensures
        state::wants(mine, before.theirs) ==> state_after(before, mine, update).am_interested,
{
}

/// The end of a download takes back every request that is open, and no other: as many messages are
/// sent as blocks are asked for and not received, and each is about one of these.
pub proof fn open_requests_are_taken_back(
    before: WriterModel,
    metadata: Metadata,
    mine: Seq<bool>,
    theirs: Seq<bool>,
)
    requires
        before.wf(metadata),
    ensures
        ({
            let grid = before.tracker.blocks;
            let taken_back = pieces::pending(grid, grid.len() as int);
            let update = Ok::<ThreadUpdate, RecvError>(ThreadUpdate::FileComplete);
            let sent = reaction_to(before.tracker, mine, theirs, metadata, update).bytes;
            &&& sent == requests::cancels(metadata, taken_back)
            &&& sent.len() == 17 * pieces::outstanding(grid)
            &&& forall|p: u32, b: u32| #[trigger]
                taken_back.contains((p, b)) <==> p < grid.len() && b < grid[p as int].len()
                    && grid[p as int][b as int] == BlockState::Requested
        }),
{
    let grid = before.tracker.blocks;
    requests::rows_are_short(grid, metadata);
    pieces::pending_is_outstanding(grid, grid.len() as int);
    assert(grid.take(grid.len() as int) =~= grid);
    requests::cancels_length(metadata, pieces::pending(grid, grid.len() as int));
}

/// A block that has been received stays received, and one that an update reports becomes received.
pub proof fn received_stays_received(
    tracker: TrackerModel,
    update: Result<ThreadUpdate, RecvError>,
    piece: int,
    block: int,
)
    requires
        0 <= piece < tracker.blocks.len(),
        0 <= block < tracker.blocks[piece].len(),
        tracker.blocks[piece][block] == BlockState::Completed || update == Ok::<
            ThreadUpdate,
            RecvError,
        >(ThreadUpdate::Completed(piece as u32)) && piece <= u32::MAX || update == Ok::<
            ThreadUpdate,
            RecvError,
        >(ThreadUpdate::Downloaded(piece as u32, block as u32)) && piece <= u32::MAX && block
            <= u32::MAX,
    ensures
        tracker_after(tracker, update).blocks[piece][block] == BlockState::Completed,
{
}

/// A message that is only a header is four bytes that spell 1 and the byte that stands for it.
pub proof fn bare_messages_are_spelled_out(id: MessageId)
    ensures
        bare(id) == seq![0u8, 0u8, 0u8, 1u8, message::byte_of(id)],
{
    assert(bare(id) =~= seq![0u8, 0u8, 0u8, 1u8, message::byte_of(id)]);
}

/// Every update but one of a completed piece or of the whole download sends nothing. A completed
/// piece is always announced, by a header of 5 and 4 and four bytes that spell the piece, whatever
/// else the client still wants.
pub proof fn completed_pieces_are_announced(
    tracker: TrackerModel,
    mine: Seq<bool>,
    theirs: Seq<bool>,
    metadata: Metadata,
    update: Result<ThreadUpdate, RecvError>,
)
    ensures
        ({
            let bytes = reaction_to(tracker, mine, theirs, metadata, update).bytes;
            match update {
                Ok(ThreadUpdate::Completed(piece)) => {
                    &&& bytes.len() == 9
                    &&& bytes.take(5) == seq![0u8, 0u8, 0u8, 5u8, 4u8]
                    &&& wire::value(bytes.skip(5)) == piece
                },
                Ok(ThreadUpdate::FileComplete) => true,
                _ => bytes.len() == 0,
            }
        }),
{
    let bytes = reaction_to(tracker, mine, theirs, metadata, update).bytes;
    if let Ok(ThreadUpdate::Completed(piece)) = update {
        assert(bytes.take(5) =~= seq![0u8, 0u8, 0u8, 5u8, 4u8]);
        assert(bytes.skip(5) =~= wire::be32(piece));
        let two = seq![0u8, 0u8];
        wire::integers_are_spelled_out(0, piece, 0, two, two + two, two + two + two + two);
    }
}

/// The session is over after an update that says so, or when nobody can send any more. Interest is
/// lost, and whoever waits for that is woken, exactly when a piece is complete and the peer has none
/// that the client lacks. Nothing else that is known of the peer changes.
pub proof fn updates_end_sessions_and_interest(
    tracker: TrackerModel,
    before: StateModel,
    mine: Seq<bool>,
    metadata: Metadata,
    update: Result<ThreadUpdate, RecvError>,
)
    ensures
        ({
            let reaction = reaction_to(tracker, mine, before.theirs, metadata, update);
            let after = state_after(before, mine, update);
            let nothing_left = forall|i: int|
                0 <= i < mine.len() && i < before.theirs.len() && before.theirs[i]
                    ==> #[trigger] mine[i];
            let done = (update matches Ok(told) && told is Completed) && nothing_left;
            &&& reaction.stop <==> update == Ok::<ThreadUpdate, RecvError>(ThreadUpdate::Disconnect)
                || update == Err::<ThreadUpdate, RecvError>(RecvError::Closed)
            &&& reaction.notify_interest <==> done
            &&& after.am_interested <==> before.am_interested && !done
            &&& after.theirs == before.theirs
            &&& after.fast == before.fast
            &&& after.peer_choking == before.peer_choking
            &&& after.am_choking == before.am_choking
            &&& after.peer_interested == before.peer_interested
        }),
{
    if state::wants(mine, before.theirs) {
        let i = choose|i: int|
            0 <= i < mine.len() && i < before.theirs.len() && !#[trigger] mine[i]
                && before.theirs[i];
        assert(!mine[i]);
    }
}

/// An update marks as received exactly the block or the piece that it reports, and no other block.
/// As many requests fewer are unanswered as blocks fewer are asked for.
pub proof fn updates_mark_what_they_report(
    tracker: TrackerModel,
    update: Result<ThreadUpdate, RecvError>,
    piece: int,
    block: int,
)
    requires
        tracker.wf(),
        0 <= piece < tracker.blocks.len(),
        0 <= block < tracker.blocks[piece].len(),
    ensures
        ({
            let after = tracker_after(tracker, update);
            let reported = match update {
                Ok(ThreadUpdate::Downloaded(p, b)) => p == piece && b == block,
                Ok(ThreadUpdate::Completed(p)) => p == piece,
                _ => false,
            };
            &&& after.blocks.len() == tracker.blocks.len()
            &&& after.blocks[piece].len() == tracker.blocks[piece].len()
            &&& after.blocks[piece][block] == (if reported {
                BlockState::Completed
            } else {
                tracker.blocks[piece][block]
            })
            &&& after.requested == tracker.requested
            &&& after.pipeline_len == tracker.pipeline_len
            &&& tracker.num_requested - after.num_requested == pieces::outstanding(tracker.blocks)
                - pieces::outstanding(after.blocks)
        }),
{
    match update {
        Ok(ThreadUpdate::Downloaded(p, b)) => {
            if p < tracker.blocks.len() && b < tracker.blocks[p as int].len() {
                let row = tracker.blocks[p as int];
                let new = row.update(b as int, BlockState::Completed);
                pieces::outstanding_after_block(row, b as int, BlockState::Completed);
                pieces::outstanding_after_row(tracker.blocks, p as int, new);
            }
        },
        Ok(ThreadUpdate::Completed(p)) => {
            pieces::received_pieces_are_marked(tracker, p as int, piece, block);
        },
        _ => {},
    }
}

/// At the end of a download every block that is asked for and not received is taken back, by a
/// message of 17 bytes of its own: a header of 13 and 8, the piece, and 16384 times the block. No
/// message is about another block.
pub proof fn every_open_request_is_taken_back(
    before: WriterModel,
    metadata: Metadata,
    mine: Seq<bool>,
    theirs: Seq<bool>,
    k: int,
    piece: u32,
    block: u32,
)
    requires
        before.wf(metadata),
    ensures
        ({
            let grid = before.tracker.blocks;
            let update = Ok::<ThreadUpdate, RecvError>(ThreadUpdate::FileComplete);
            let sent = reaction_to(before.tracker, mine, theirs, metadata, update).bytes;
            let open = |p: int, b: int|
                0 <= p < grid.len() && 0 <= b < grid[p].len() && grid[p][b]
                    == BlockState::Requested;
            let named = |i: int, p: int, b: int|
                {
                    &&& sent.subrange(17 * i, 17 * i + 5) == seq![0u8, 0u8, 0u8, 13u8, 8u8]
                    &&& wire::value(sent.subrange(17 * i + 5, 17 * i + 9)) == p
                    &&& wire::value(sent.subrange(17 * i + 9, 17 * i + 13)) == b * 16384
                };
            &&& 0 <= k < sent.len() / 17 ==> exists|p: int, b: int|
                #[trigger] open(p, b) && named(k, p, b)
            &&& open(piece as int, block as int) ==> exists|i: int|
                0 <= i < sent.len() / 17 && #[trigger] named(i, piece as int, block as int)
            &&& sent.len() % 17 == 0
        }),
{
    let grid = before.tracker.blocks;
    let update = Ok::<ThreadUpdate, RecvError>(ThreadUpdate::FileComplete);
    let sent = reaction_to(before.tracker, mine, theirs, metadata, update).bytes;
    let taken_back = pieces::pending(grid, grid.len() as int);
    let open = |p: int, b: int|
        0 <= p < grid.len() && 0 <= b < grid[p].len() && grid[p][b] == BlockState::Requested;
    let named = |i: int, p: int, b: int|
        {
            &&& sent.subrange(17 * i, 17 * i + 5) == seq![0u8, 0u8, 0u8, 13u8, 8u8]
            &&& wire::value(sent.subrange(17 * i + 5, 17 * i + 9)) == p
            &&& wire::value(sent.subrange(17 * i + 9, 17 * i + 13)) == b * 16384
        };
    open_requests_are_taken_back(before, metadata, mine, theirs);
    requests::cancels_length(metadata, taken_back);
    requests::pending_requests_exist(grid, metadata);
    assert forall|i: int| 0 <= i < taken_back.len() implies #[trigger] named(
        i,
        taken_back[i].0 as int,
        taken_back[i].1 as int,
    ) by {
        let (p, b) = taken_back[i];
        let header = requests::cancel_header();
        let one = requests::block_message(header, metadata, p, b);
        requests::cancels_stand_in_order(metadata, taken_back, i);
        assert(sent.subrange(17 * i, 17 * i + 17) == one);
        assert(requests::exists_in(metadata, taken_back[i].0, taken_back[i].1));
        requests::block_messages_are_spelled_out(metadata, p, b, header);
        assert(sent.subrange(17 * i, 17 * i + 5) =~= one.take(5));
        assert(sent.subrange(17 * i + 5, 17 * i + 9) =~= one.subrange(5, 9));
        assert(sent.subrange(17 * i + 9, 17 * i + 13) =~= one.subrange(9, 13));
    }
    if 0 <= k < sent.len() / 17 {
        let (p, b) = taken_back[k];
        assert(taken_back.contains((p, b)));
        assert(open(p as int, b as int) && named(k, p as int, b as int));
    }
    if open(piece as int, block as int) {
        assert(taken_back.contains((piece, block)));
        let i = taken_back.index_of((piece, block));
        assert(named(i, piece as int, block as int));
    }
}

/// A request of the peer is answered with the block exactly when the client has the piece and is not
/// choking, and ends the session exactly when the client lacks the piece and is not choking. After
/// what is sent first the client is not choking any more.
pub proof fn requests_are_served_from_what_is_there(state: StateModel, mine: Seq<bool>, piece: u32)
    ensures
        answer_to(state.am_choking, mine, piece) == Answer::Ignore <==> state.am_choking,
        ({
            let there = piece < mine.len() && mine[piece as int];
            let after = greeted(state);
            &&& answer_to(after.am_choking, mine, piece) == Answer::Serve <==> there
            &&& answer_to(after.am_choking, mine, piece) == Answer::Sever <==> !there
            &&& after == (StateModel { am_choking: after.am_choking, ..state })
        }),
{
}

/// A block is sent with a header of nine more than its length and 7, then the piece, the first byte
/// in it and the data.
pub proof fn sent_blocks_are_spelled_out(piece: u32, begin: u32, data: Seq<u8>)
    requires
        data.len() + 9 <= u32::MAX,
    ensures
        ({
            let bytes = brings(piece, begin, data);
            &&& bytes.len() == 13 + data.len()
            &&& wire::value(bytes.take(4)) == 9 + data.len()
            &&& bytes[4] == 7
            &&& wire::value(bytes.subrange(5, 9)) == piece
            &&& wire::value(bytes.subrange(9, 13)) == begin
            &&& bytes.skip(13) == data
        }),
{
    let bytes = brings(piece, begin, data);
    let length = (data.len() + 9) as u32;
    let two = seq![0u8, 0u8];
    let four = two + two;
    wire::integers_are_spelled_out(0, length, 0, two, four, four + four);
    wire::integers_are_spelled_out(0, piece, 0, two, four, four + four);
    wire::integers_are_spelled_out(0, begin, 0, two, four, four + four);
    assert(bytes.take(4) =~= wire::be32(length));
    assert(bytes.subrange(5, 9) =~= wire::be32(piece));
    assert(bytes.subrange(9, 13) =~= wire::be32(begin));
    assert(bytes.skip(13) =~= data);
}

/// A request is sent exactly when a block has been found and the client wants something, and it asks
/// for that block.
pub proof fn found_blocks_are_asked_for(metadata: Metadata, interested: bool, found: Option<(u32, u32)>)
    requires
        requests::nameable(metadata),
        found matches Some((piece, block)) ==> requests::exists_in(metadata, piece, block),
    ensures
        ({
            let bytes = asks(metadata, interested, found);
            match found {
                Some((piece, block)) => if interested {
                    &&& bytes.len() == 17
                    &&& bytes.take(5) == seq![0u8, 0u8, 0u8, 13u8, 6u8]
                    &&& wire::value(bytes.subrange(5, 9)) == piece
                    &&& wire::value(bytes.subrange(9, 13)) == block * 16384
                    &&& wire::value(bytes.subrange(13, 17)) == requests::size_of_block(
                        metadata,
                        piece,
                        block,
                    )
                } else {
                    bytes.len() == 0
                },
                None => bytes.len() == 0,
            }
        }),
{
    if let Some((piece, block)) = found {
        let bytes = requests::block_message(requests::request_header(), metadata, piece, block);
        let size = requests::size_of_block(metadata, piece, block) as u32;
        requests::block_messages_fit(metadata, piece, block);
        requests::block_messages_are_spelled_out(
            metadata,
            piece,
            block,
            requests::request_header(),
        );
        let two = seq![0u8, 0u8];
        let four = two + two;
        wire::integers_are_spelled_out(0, size, 0, two, four, four + four);
        assert(bytes.subrange(13, 17) =~= wire::be32(size));
    }
}

/// A peer that is choking the client is asked for nothing, and nothing changes. Another one that has a
/// piece of which a block has not been asked for makes one more request unanswered exactly when fewer
/// are than may be, and the request is sent exactly when the client also wants something. It names the
/// block that has been marked.
pub proof fn choking_peers_are_asked_for_nothing(
    before: WriterModel,
    after: WriterModel,
    state: StateModel,
    metadata: Metadata,
    bytes: Seq<u8>,
    piece: usize,
    block: int,
)
    requires
        asks_once(before, after, state, metadata, bytes),
        before.wf(metadata),
        before.tracker.requested matches Some(p) ==> p < before.tracker.blocks.len(),
        state.theirs.len() <= usize::MAX,
        piece < state.theirs.len(),
        state.theirs[piece as int],
        piece < before.tracker.blocks.len(),
        0 <= block < before.tracker.blocks[piece as int].len(),
        before.tracker.blocks[piece as int][block] == BlockState::UnRequested,
    ensures
        ({
            let room = before.tracker.num_requested < before.tracker.pipeline_len;
            &&& state.peer_choking ==> after == before && bytes.len() == 0
            &&& !room ==> after.tracker == before.tracker && bytes.len() == 0
            &&& !state.peer_choking && room ==> {
                &&& after.tracker.num_requested == before.tracker.num_requested + 1
                &&& !state.am_interested ==> bytes.len() == 0
                &&& state.am_interested ==> bytes.len() == 17 && bytes.take(5) == seq![
                    0u8,
                    0u8,
                    0u8,
                    13u8,
                    6u8,
                ] && exists|p: int, b: int|
                    {
                        &&& 0 <= p < after.tracker.blocks.len()
                        &&& 0 <= b < after.tracker.blocks[p].len()
                        &&& before.tracker.blocks[p][b] == BlockState::UnRequested
                        &&& #[trigger] after.tracker.blocks[p][b] == BlockState::Requested
                        &&& wire::value(bytes.subrange(5, 9)) == p
                        &&& wire::value(bytes.subrange(9, 13)) == b * 16384
                    }
            }
        }),
{
    let listed = bits::positions_of_ones(state.theirs);
    bits::positions_are_those_of_ones(state.theirs);
    assert(listed.contains(piece));
    let i = listed.index_of(piece);
    if !state.peer_choking {
        let found = choose|found: Option<(u32, u32)>| #[trigger]
            before.tracker.requests(listed, after.tracker, found) && bytes == asks(
                metadata,
                state.am_interested,
                found,
            );
        pieces::blocks_are_found_where_there_are_any(
            before.tracker,
            listed,
            after.tracker,
            found,
            i,
            block,
        );
        requests::requests_name_blocks(before.tracker, listed, after.tracker, found, metadata);
        requests::rows_are_short(before.tracker.blocks, metadata);
        found_blocks_are_asked_for(metadata, state.am_interested, found);
        if let Some((p, b)) = found {
            pieces::requests_ask_for_the_next_block(
                before.tracker,
                listed,
                after.tracker,
                found,
                p as int,
                b as int,
            );
            assert(after.tracker.blocks[p as int][b as int] == BlockState::Requested);
        }
    }
}

/// What is sent for a block that a tracker has found is nothing, or a request for a block that had not
/// been asked for before and is marked as asked for afterwards.
pub proof fn requests_name_new_blocks(
    before: TrackerModel,
    listed: Seq<usize>,
    after: TrackerModel,
    found: Option<(u32, u32)>,
    metadata: Metadata,
    interested: bool,
)
    requires
        requests::nameable(metadata),
        requests::fits_torrent(before.blocks, metadata),
        before.requests(listed, after, found),
    ensures
        ({
            let bytes = asks(metadata, interested, found);
            bytes.len() == 0 || {
                &&& bytes.len() == 17
                &&& bytes.take(5) == seq![0u8, 0u8, 0u8, 13u8, 6u8]
                &&& exists|p: int, b: int|
                    {
                        &&& 0 <= p < before.blocks.len()
                        &&& 0 <= b < before.blocks[p].len()
                        &&& before.blocks[p][b] == BlockState::UnRequested
                        &&& #[trigger] after.blocks[p][b] == BlockState::Requested
                        &&& wire::value(bytes.subrange(5, 9)) == p
                        &&& wire::value(bytes.subrange(9, 13)) == b * 16384
                    }
            }
        }),
{
    requests::requests_name_blocks(before, listed, after, found, metadata);
    requests::rows_are_short(before.blocks, metadata);
    found_blocks_are_asked_for(metadata, interested, found);
    if let Some((p, b)) = found {
        pieces::requests_ask_for_the_next_block(before, listed, after, found, p as int, b as int);
        assert(after.blocks[p as int][b as int] == BlockState::Requested);
    }
}

/// A round sends nothing or one request, which names a block that had not been asked for before and is
/// marked as asked for afterwards. Nothing is sent to a peer that is choking the client, or of which
/// nothing is wanted.
pub proof fn rounds_send_nothing_but_requests(
    before: WriterModel,
    after: WriterModel,
    state: StateModel,
    metadata: Metadata,
    bytes: Seq<u8>,
)
    requires
        asks_once(before, after, state, metadata, bytes),
        before.wf(metadata),
    ensures
        state.peer_choking || !state.am_interested ==> bytes.len() == 0,
        bytes.len() == 0 || {
            &&& bytes.len() == 17
            &&& bytes.take(5) == seq![0u8, 0u8, 0u8, 13u8, 6u8]
            &&& exists|p: int, b: int|
                {
                    &&& 0 <= p < before.tracker.blocks.len()
                    &&& 0 <= b < before.tracker.blocks[p].len()
                    &&& before.tracker.blocks[p][b] == BlockState::UnRequested
                    &&& #[trigger] after.tracker.blocks[p][b] == BlockState::Requested
                    &&& wire::value(bytes.subrange(5, 9)) == p
                    &&& wire::value(bytes.subrange(9, 13)) == b * 16384
                }
        },
{
    if !state.peer_choking {
        let listed = bits::positions_of_ones(state.theirs);
        let found = choose|found: Option<(u32, u32)>| #[trigger]
            before.tracker.requests(listed, after.tracker, found) && bytes == asks(
                metadata,
                state.am_interested,
                found,
            );
        requests_name_new_blocks(
            before.tracker,
            listed,
            after.tracker,
            found,
            metadata,
            state.am_interested,
        );
    }
}

/// The bytes that hold a set of pieces are as few as can be, and the bit of a piece is the bit of its
/// byte that comes after as many bits as there are pieces before it.
pub proof fn sets_are_held_bit_by_bit(payload: Seq<u8>, mine: Seq<bool>)
    ensures
        holds_bits(payload, mine) <==> {
            &&& mine.len() <= 8 * payload.len() < mine.len() + 8
            &&& forall|i: int|
                0 <= i < mine.len() ==> #[trigger] mine[i] == bits::bit_of(payload[i / 8], i % 8)
        },
{
}

} // verus!
