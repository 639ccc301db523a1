//! A session that keeps the pieces of the peer as it sends them, and ends with the download.
use crate::bits;
use crate::message;
use crate::message::BitField;
use crate::parsing::Metadata;
use crate::peer::blocks;
use crate::peer::blocks::BLOCK_SIZE;
use crate::peer::connection;
use crate::peer::history;
use crate::peer::message::{Message, MessageId};
use crate::peer::pieces;
use crate::peer::pieces::{PieceTracker, TrackerModel};
use crate::peer::requests;
use crate::peer::writing;
use crate::peer::writing::{Writer, WriterModel};
use crate::peer::BlockState;
use crate::wire;
use crate::{RecvError, ThreadUpdate};
use vstd::prelude::*;

verus! {

/// Whether the session is over after an update from the other half. Nothing is decided where updates
/// are lost.
pub open spec fn over_after(message: Result<ThreadUpdate, RecvError>) -> Option<bool> {
    match message {
        Err(RecvError::Lagged(_)) => None,
        Err(RecvError::Closed) => Some(true),
        Ok(update) => Some(update == ThreadUpdate::FileComplete),
    }
}

/// Decides on an update from the other half: whether the session is over.
pub fn handle_channel_message(message: Result<ThreadUpdate, RecvError>) -> (stop: Result<
    bool,
    &'static str,
>)
    ensures
        match stop {
            Ok(stop) => over_after(message) == Some(stop),
            Err(text) => over_after(message) is None && text@ == "Stream lagged"@,
        },
{
    match message {
        Err(RecvError::Lagged(_)) => Err("Stream lagged"),
        Err(RecvError::Closed) => Ok(true),
        Ok(ThreadUpdate::FileComplete) => Ok(true),
        Ok(_) => Ok(false),
    }
}

/// What the reading half of a session has heard of its peer.
#[derive(Debug)]
pub struct Heard {
    /// The pieces that the peer has.
    pub peer_bitfield: BitField,
    /// Whether the peer is choking the client.
    pub choked: bool,
}

impl Heard {
    /// Nothing has been heard: the peer has no piece, and chokes.
    pub fn new(metadata: &Metadata) -> (heard: Self)
        requires
            metadata.wf(),
        ensures
            heard.choked,
            heard.peer_bitfield.settable == metadata.piece_count(),
            heard.peer_bitfield@ == Seq::new(
                ((metadata.piece_count() + 7) / 8) as nat,
                |i: int| 0u8,
            ),
    {
        Heard {
            peer_bitfield: BitField::with_settable(metadata.num_pieces() as u64),
            choked: true,
        }
    }
}

/// A block to be written to the file of the torrent, and the update that then is to be sent.
#[derive(Copy, Clone, Debug, PartialEq, Eq, Structural)]
pub struct Received {
    /// Where the block starts in the file.
    pub position: u64,
    /// What to tell the other tasks.
    pub update: ThreadUpdate,
}

/// The message is one that the session provides for, and what it says can be: the payload has the
/// right length, a piece that it names exists, a block lies at a 64-bit position, and a set of pieces
/// is not an impossible one.
pub open spec fn makes_sense(
    heard: Heard,
    metadata: Metadata,
    message: Message,
    payload: Seq<u8>,
) -> bool {
    match message.message_id {
        None => true,
        Some(id) => {
            &&& connection::long_enough(message)
            &&& payload.len() == connection::payload_length(message)
            &&& match id {
                MessageId::Piece => metadata.position(
                    connection::number_at(payload, 0) as int,
                    connection::number_at(payload, 4) as int,
                ) <= u64::MAX,
                MessageId::BitField => {
                    &&& 8 * payload.len() <= usize::MAX
                    &&& message::acceptable(payload, metadata.piece_count() as u64)
                },
                MessageId::Have => message::addressable(
                    heard.peer_bitfield,
                    connection::number_at(payload, 0) as usize,
                ),
                MessageId::Interested | MessageId::UnChoke | MessageId::Choke => true,
                _ => false,
            }
        },
    }
}

/// The bits of the peer after a message.
pub open spec fn bits_after(theirs: Seq<u8>, message: Message, payload: Seq<u8>) -> Seq<u8> {
    match message.message_id {
        Some(MessageId::BitField) => message::merged(theirs, payload),
        Some(MessageId::Have) => {
            let index = connection::number_at(payload, 0) as int;
            theirs.update(index / 8, message::with_bit(theirs[index / 8], index % 8, true))
        },
        _ => theirs,
    }
}

/// Whether the peer is choking the client after a message.
pub open spec fn choked_after(choked: bool, message: Message) -> bool {
    match message.message_id {
        Some(MessageId::Choke) => true,
        Some(MessageId::UnChoke) => false,
        _ => choked,
    }
}

/// The block that a message brings, if it brings one.
pub open spec fn received_in(metadata: Metadata, message: Message, payload: Seq<u8>) -> Option<
    Received,
> {
    if message.message_id == Some(MessageId::Piece) {
        Some(
            Received {
                position: metadata.position(
                    connection::number_at(payload, 0) as int,
                    connection::number_at(payload, 4) as int,
                ) as u64,
                update: ThreadUpdate::Downloaded(
                    connection::number_at(payload, 0),
                    (connection::number_at(payload, 4) / BLOCK_SIZE) as u32,
                ),
            },
        )
    } else {
        None
    }
}

/// Takes in a message and its payload. Only a block has to be written and told of. A set of pieces of
/// another size than the torrent's is an error, and changes nothing.
pub fn process_message(
    heard: &mut Heard,
    metadata: &Metadata,
    message: &Message,
    payload: Vec<u8>,
) -> (received: Result<Option<Received>, &'static str>)
    requires
        metadata.wf(),
        makes_sense(*old(heard), *metadata, *message, payload@),
    ensures
        final(heard).peer_bitfield.settable == old(heard).peer_bitfield.settable,
        match received {
            Ok(received) => {
                &&& message.message_id == Some(MessageId::BitField)
                    ==> old(heard).peer_bitfield.settable == metadata.piece_count()
                &&& final(heard).peer_bitfield@ == bits_after(
                    old(heard).peer_bitfield@,
                    *message,
                    payload@,
                )
                &&& final(heard).choked == choked_after(old(heard).choked, *message)
                &&& received == received_in(*metadata, *message, payload@)
            },
            Err(text) => {
                &&& message.message_id == Some(MessageId::BitField)
                &&& old(heard).peer_bitfield.settable != metadata.piece_count()
                &&& text@ == "Number of settable bits differ"@
                &&& final(heard).peer_bitfield@ == old(heard).peer_bitfield@
                &&& final(heard).choked == old(heard).choked
            },
        },
{
    let Some(message_id) = message.message_id else {
        return Ok(None);
    };
    match message_id {
        MessageId::Piece => {
            let piece_index: u32 = wire::u32_at(payload.as_slice(), 0);
            let begin: u32 = wire::u32_at(payload.as_slice(), 4);
            let piece_length: u64 = metadata.info.piece_length;
            proof {
                assert(piece_index * piece_length >= 0) by (nonlinear_arith)
                    requires
                        piece_index >= 0,
                        piece_length >= 0,
                ;
            }
            let piece_start: u64 = piece_index as u64 * piece_length;
            Ok(
                Some(
                    Received {
                        position: piece_start + begin as u64,
                        update: ThreadUpdate::Downloaded(piece_index, begin / BLOCK_SIZE),
                    },
                ),
            )
        },
        MessageId::BitField => {
            let ghost sent = payload@;
            match BitField::new(payload, metadata.num_pieces() as u64) {
                Ok(sent_bitfield) => match heard.peer_bitfield.update(&sent_bitfield) {
                    Ok(()) => Ok(None),
                    Err(text) => Err(text),
                },
                Err(text) => Err(text),
            }
        },
        MessageId::Have => {
            let index: u32 = wire::u32_at(payload.as_slice(), 0);
            let _ = heard.peer_bitfield.set(index as usize, true);
            Ok(None)
        },
        MessageId::UnChoke => {
            heard.choked = false;
            Ok(None)
        },
        MessageId::Choke => {
            heard.choked = true;
            Ok(None)
        },
        _ => Ok(None),
    }
}

/// Why no update was there to be taken.
#[derive(Copy, Clone, Debug, PartialEq, Eq, Structural)]
pub enum TryRecvError {
    /// None has been sent.
    Empty,
    /// Nobody can send any more.
    Closed,
    /// The receiver was too slow, and this many updates are lost.
    Lagged(u64),
}

/// The other bit field has a bit that this one lacks.
pub open spec fn lacks(mine: Seq<u8>, theirs: Seq<u8>) -> bool {
    message::has_more(mine, theirs)
}

/// The bytes that tell of a change of interest.
pub open spec fn interest_bytes(told: bool, wanted: bool) -> Seq<u8> {
    if told == wanted {
        Seq::empty()
    } else if wanted {
        writing::bare(MessageId::Interested)
    } else {
        writing::bare(MessageId::NotInterested)
    }
}

/// The tracker after an update.
pub open spec fn tracker_after(
    tracker: TrackerModel,
    update: Result<ThreadUpdate, TryRecvError>,
) -> TrackerModel {
    match update {
        Ok(ThreadUpdate::Downloaded(piece, block)) => tracker.block_received(
            piece as int,
            block as int,
        ),
        Ok(ThreadUpdate::Completed(piece)) => tracker.piece_received(piece as int),
        _ => tracker,
    }
}

/// The bytes that an update causes to be sent.
pub open spec fn update_bytes(
    tracker: TrackerModel,
    metadata: Metadata,
    update: Result<ThreadUpdate, TryRecvError>,
) -> Seq<u8> {
    match update {
        Ok(ThreadUpdate::Completed(piece)) => writing::announces(piece),
        Ok(ThreadUpdate::FileComplete) => requests::cancels(
            metadata,
            pieces::pending(tracker.blocks, tracker.blocks.len() as int),
        ),
        _ => Seq::empty(),
    }
}

/// The update ends the session.
pub open spec fn ends(update: Result<ThreadUpdate, TryRecvError>) -> bool {
    update == Err::<ThreadUpdate, TryRecvError>(TryRecvError::Closed) || update == Ok::<
        ThreadUpdate,
        TryRecvError,
    >(ThreadUpdate::FileComplete)
}

/// What a round of the writing half has come to.
#[derive(Debug)]
pub struct Round {
    /// The bytes to send.
    pub bytes: Vec<u8>,
    /// Whether the session is over.
    pub stop: bool,
}

/// A round that goes on after its update: the peer is told of a change of interest and, unless it is
/// choking the client, asked for one more block.
pub open spec fn goes_on(
    before: WriterModel,
    after: WriterModel,
    metadata: Metadata,
    update: Result<ThreadUpdate, TryRecvError>,
    choked: bool,
    mine: Seq<u8>,
    theirs: Seq<u8>,
    bytes: Seq<u8>,
) -> bool {
    let updated = tracker_after(before.tracker, update);
    let sent = update_bytes(before.tracker, metadata, update) + interest_bytes(
        before.told,
        lacks(mine, theirs),
    );
    &&& after.told == lacks(mine, theirs)
    &&& if choked {
        after.tracker == updated && bytes == sent
    } else {
        exists|found: Option<(u32, u32)>| #[trigger]
            updated.requests(
                message::set_below(theirs, 8 * theirs.len() as int),
                after.tracker,
                found,
            ) && bytes == sent + writing::asks(metadata, true, found)
    }
}

impl Writer {
    /// The writing half at the start of a session: nothing has been asked for, and the pieces that
    /// the client has count as received.
    pub fn from_bit_field(metadata: &Metadata, my_bitfield: &BitField) -> (writer: Self)
        requires
            requests::nameable(*metadata),
            8 * my_bitfield@.len() <= usize::MAX,
            forall|i: int|
                0 <= i < 8 * my_bitfield@.len() && #[trigger] bits::bit_at(my_bitfield@, i) ==> i
                    < metadata.piece_count(),
        ensures
            !writer@.told,
            writer@.wf(*metadata),
            writer@.tracker == history::fresh(
                metadata.info.torr_type.total() as int,
                metadata.info.piece_length as int,
            ).list_received(message::set_below(my_bitfield@, 8 * my_bitfield@.len() as int)),
            writer@.tracker == (TrackerModel {
                blocks: writer@.tracker.blocks,
                num_requested: 0,
                pipeline_len: 5,
                requested: None,
            }),
            forall|p: usize|
                p < metadata.piece_count() ==> #[trigger] writer@.tracker.blocks[p as int]
                    == pieces::uniform(
                    blocks::blocks_in(
                        blocks::piece_size(
                            p as int,
                            metadata.info.torr_type.total() as int,
                            metadata.info.piece_length as int,
                        ),
                    ),
                    if p < 8 * my_bitfield@.len() && bits::bit_at(my_bitfield@, p as int) {
                        BlockState::Completed
                    } else {
                        BlockState::UnRequested
                    },
                ),
    {
        let total: u64 = metadata.info.torr_type.len();
        let piece_length: u64 = metadata.info.piece_length;
        proof {
            blocks::ceil_div_covers(total as int, piece_length as int);
            blocks::ceil_div_covers(piece_length as int, BLOCK_SIZE as int);
            requests::fresh_grids_fit(*metadata);
            message::set_positions_are_those_of_ones(
                my_bitfield@,
                8 * my_bitfield@.len() as int,
            );
        }
        let mut requested = PieceTracker::from_file_info(total, piece_length);
        let ghost fresh = requested@.blocks;
        let done = my_bitfield.set_bits();
        proof {
            assert forall|i: int| 0 <= i < done@.len() implies done@[i] < fresh.len() by {
                assert(done@.contains(done@[i]));
            }
        }
        requested.complete_pieces(&done);
        proof {
            assert(requests::fits_torrent(requested@.blocks, *metadata)) by {
                assert forall|p: int|
                    0 <= p < requested@.blocks.len() implies #[trigger] requested@.blocks[p].len()
                    == blocks::blocks_in(
                    blocks::piece_size(p, total as int, piece_length as int),
                ) by {
                    let q = p as usize;
                    assert(fresh[p].len() == requested@.blocks[q as int].len());
                }
            }
            assert forall|p: usize|
                p < metadata.piece_count() implies #[trigger] requested@.blocks[p as int]
                == pieces::uniform(
                blocks::blocks_in(
                    blocks::piece_size(p as int, total as int, piece_length as int),
                ),
                if p < 8 * my_bitfield@.len() && bits::bit_at(my_bitfield@, p as int) {
                    BlockState::Completed
                } else {
                    BlockState::UnRequested
                },
            ) by {
                assert(done@.contains(p) <==> (p < 8 * my_bitfield@.len() && bits::bit_at(
                    my_bitfield@,
                    p as int,
                )));
            }
        }
        Writer { am_interested: false, requested }
    }

    /// Takes in an update, if there is one, and then tells the peer of a change of interest and asks
    /// it for one more block. A receiver that was too slow is not provided for.
    pub fn round(
        &mut self,
        metadata: &Metadata,
        update: Result<ThreadUpdate, TryRecvError>,
        choked: bool,
        my_bitfield: &BitField,
        peer_bitfield: &BitField,
    ) -> (round: Round)
        requires
            old(self)@.wf(*metadata),
            !(update matches Err(TryRecvError::Lagged(_))),
            my_bitfield.settable == peer_bitfield.settable,
            8 * peer_bitfield@.len() <= usize::MAX,
        ensures
            final(self)@.wf(*metadata),
            round.stop == ends(update),
            if ends(update) {
                &&& final(self)@ == old(self)@
                &&& round.bytes@ == update_bytes(old(self)@.tracker, *metadata, update)
            } else {
                goes_on(
                    old(self)@,
                    final(self)@,
                    *metadata,
                    update,
                    choked,
                    my_bitfield@,
                    peer_bitfield@,
                    round.bytes@,
                )
            },
    {
        let mut bytes: Vec<u8> = Vec::new();
        match update {
            Err(TryRecvError::Empty) => {},
            Err(_) => {
                return Round { bytes, stop: true };
            },
            Ok(ThreadUpdate::Downloaded(piece, block)) => {
                self.requested.mark_block_as_downloaded(piece as usize, block as usize);
            },
            Ok(ThreadUpdate::Completed(piece)) => {
                self.requested.mark_piece_as_downloaded(piece as usize);
                bytes = Message::have().as_bytes();
                wire::append(&mut bytes, wire::u32_to_be(piece).as_slice());
            },
            Ok(ThreadUpdate::FileComplete) => {
                proof {
                    requests::pending_requests_exist(self@.tracker.blocks, *metadata);
                }
                let pending = self.requested.pending_requests();
                let bytes = requests::cancel_requests(metadata, &pending);
                return Round { bytes, stop: true };
            },
            Ok(ThreadUpdate::Disconnect) => {},
        }
        let ghost updated = tracker_after(old(self)@.tracker, update);
        proof {
            assert(self@.tracker =~= updated);
            assert(self@ =~= WriterModel { tracker: updated, ..old(self)@ });
            writing::updated_trackers_fit(old(self)@, *metadata, update_of(update));
        }
        let wanted = match my_bitfield.has_other(peer_bitfield) {
            Ok(found) => found,
            Err(_) => false,
        };
        if wanted && !self.am_interested {
            wire::append(&mut bytes, Message::interested().as_bytes().as_slice());
            self.am_interested = true;
        }
        if !wanted && self.am_interested {
            wire::append(&mut bytes, Message::not_interested().as_bytes().as_slice());
            self.am_interested = false;
        }
        let ghost sent = update_bytes(old(self)@.tracker, *metadata, update) + interest_bytes(
            old(self)@.told,
            wanted,
        );
        assert(bytes@ =~= sent);
        if !choked {
            let peer_has = peer_bitfield.set_bits();
            let ghost listed = peer_has@;
            let found = self.requested.request(peer_has);
            proof {
                requests::requests_name_blocks(updated, listed, self@.tracker, found, *metadata);
                pieces::requests_stay_within_pipeline(updated, listed, self@.tracker, found);
            }
            let request = writing::ask_for(metadata, true, found);
            wire::append(&mut bytes, request.as_slice());
        }
        Round { bytes, stop: false }
    }
}

/// The update itself, where there is one.
pub open spec fn update_of(update: Result<ThreadUpdate, TryRecvError>) -> Result<
    ThreadUpdate,
    RecvError,
> {
    match update {
        Ok(update) => Ok(update),
        Err(_) => Err(RecvError::Closed),
    }
}

/// The session is over with the download or when the other half is gone, and only lost updates leave
/// it open whether it is.
pub proof fn sessions_end_with_the_download(
    message: Result<ThreadUpdate, RecvError>,
    update: Result<ThreadUpdate, TryRecvError>,
)
    ensures
        over_after(message) == Some(true) <==> message == Ok::<ThreadUpdate, RecvError>(
            ThreadUpdate::FileComplete,
        ) || message == Err::<ThreadUpdate, RecvError>(RecvError::Closed),
        over_after(message) is None <==> (message matches Err(error) && error is Lagged),
        ends(update) <==> update == Ok::<ThreadUpdate, TryRecvError>(ThreadUpdate::FileComplete)
            || update == Err::<ThreadUpdate, TryRecvError>(TryRecvError::Closed),
{
}

/// A message makes sense in this session when it keeps the connection alive, says whether the peer
/// chokes or that it is interested, or is of the right length and about a piece that there is, a set
/// that is accepted, or a block whose position can be counted in 64 bits.
pub proof fn plain_messages_make_sense(
    heard: Heard,
    metadata: Metadata,
    message: Message,
    payload: Seq<u8>,
)
    requires
        metadata.wf(),
        heard.peer_bitfield.wf(),
    ensures
        message.message_id is None ==> makes_sense(heard, metadata, message, payload),
        message.message_id matches Some(id) ==> (makes_sense(heard, metadata, message, payload) <==> {
            ||| (id == MessageId::Choke || id == MessageId::UnChoke || id == MessageId::Interested)
                && payload.len() == 0
            ||| id == MessageId::Have && payload.len() == 4 && wire::value(payload)
                < heard.peer_bitfield.settable
            ||| id == MessageId::BitField && message.length == payload.len() + 1 && 8
                * payload.len() <= usize::MAX && message::acceptable(
                payload,
                metadata.piece_count() as u64,
            )
            ||| id == MessageId::Piece && message.length == payload.len() + 1 && payload.len() >= 8
                && wire::value(payload.subrange(0, 4)) * metadata.info.piece_length + wire::value(
                payload.subrange(4, 8),
            ) <= u64::MAX
        }),
{
    if let Some(id) = message.message_id {
        if id == MessageId::Have && payload.len() == 4 {
            connection::numbers_are_spelled_out(payload, 0);
            assert(payload.subrange(0, 4) =~= payload);
        }
        if id == MessageId::Piece && payload.len() >= 8 {
            connection::numbers_are_spelled_out(payload, 0);
            connection::numbers_are_spelled_out(payload, 4);
        }
    }
}

/// After a message the peer is known to have a piece exactly when it was known to before or the
/// message tells of it, by its number or by its bit.
pub proof fn plain_peers_have_what_they_tell_of(
    theirs: Seq<u8>,
    message: Message,
    payload: Seq<u8>,
    piece: int,
)
    requires
        0 <= piece < 8 * theirs.len(),
        message.message_id == Some(MessageId::Have) ==> payload.len() == 4 && wire::value(payload)
            < 8 * theirs.len(),
    ensures
        bits_after(theirs, message, payload).len() == theirs.len(),
        bits::bit_at(bits_after(theirs, message, payload), piece) <==> {
            ||| bits::bit_at(theirs, piece)
            ||| message.message_id == Some(MessageId::Have) && wire::value(payload) == piece
            ||| message.message_id == Some(MessageId::BitField) && piece < 8 * payload.len()
                && bits::bit_at(payload, piece)
        },
{
    match message.message_id {
        Some(MessageId::Have) => {
            connection::numbers_are_spelled_out(payload, 0);
            assert(payload.subrange(0, 4) =~= payload);
            message::written_bits_are_read_back(theirs, wire::value(payload), true, piece);
        },
        Some(MessageId::BitField) => {
            message::merging_joins_the_bits(theirs, payload, piece);
        },
        _ => {},
    }
}

/// The peer is choking the client after it has said so and until it says otherwise. A message that
/// brings a block is written where the block lies in the torrent, and told of by its piece and the
/// number of whole blocks of 16384 bytes before it; no other message is.
pub proof fn plain_peers_choke_and_send(
    choked: bool,
    metadata: Metadata,
    message: Message,
    payload: Seq<u8>,
)
    requires
        message.message_id == Some(MessageId::Piece) ==> payload.len() >= 8 && metadata.position(
            connection::number_at(payload, 0) as int,
            connection::number_at(payload, 4) as int,
        ) <= u64::MAX,
    ensures
        choked_after(choked, message) <==> message.message_id == Some(MessageId::Choke) || (
        message.message_id != Some(MessageId::UnChoke) && choked),
        received_in(metadata, message, payload) is Some <==> message.message_id == Some(
            MessageId::Piece,
        ),
        received_in(metadata, message, payload) matches Some(received) ==> {
            let piece = wire::value(payload.subrange(0, 4));
            let begin = wire::value(payload.subrange(4, 8));
            &&& received.position == piece * metadata.info.piece_length + begin
            &&& received.update matches ThreadUpdate::Downloaded(p, b) && p == piece && b * 16384
                <= begin < b * 16384 + 16384
        },
{
    if message.message_id == Some(MessageId::Piece) {
        connection::numbers_are_spelled_out(payload, 0);
        connection::numbers_are_spelled_out(payload, 4);
        let piece = connection::number_at(payload, 0) as int;
        let piece_length = metadata.info.piece_length as int;
        assert(piece * piece_length >= 0) by (nonlinear_arith)
            requires
                piece >= 0,
                piece_length >= 0,
        ;
    }
}

/// An update marks, announces and takes back what it does in a session of the other kind.
pub proof fn both_kinds_of_sessions_take_updates_alike(
    tracker: TrackerModel,
    mine: Seq<bool>,
    theirs: Seq<bool>,
    metadata: Metadata,
    update: ThreadUpdate,
)
    ensures
        tracker_after(tracker, Ok(update)) == writing::tracker_after(tracker, Ok(update)),
        update_bytes(tracker, metadata, Ok(update)) == writing::reaction_to(
            tracker,
            mine,
            theirs,
            metadata,
            Ok(update),
        ).bytes,
        tracker_after(tracker, Err(TryRecvError::Empty)) == tracker,
        update_bytes(tracker, metadata, Err(TryRecvError::Empty)).len() == 0,
{
}

/// After a round that goes on, the peer has been told whether it has a piece that the client lacks.
/// One that is choking the client is asked for nothing. Another one that has a piece of which a block
/// has not been asked for is asked for a block exactly when fewer requests are unanswered than may be,
/// and the request is what is sent last.
pub proof fn rounds_ask_unless_choked(
    before: WriterModel,
    after: WriterModel,
    metadata: Metadata,
    update: Result<ThreadUpdate, TryRecvError>,
    choked: bool,
    mine: Seq<u8>,
    theirs: Seq<u8>,
    bytes: Seq<u8>,
    piece: usize,
    block: int,
)
    requires
        goes_on(before, after, metadata, update, choked, mine, theirs, bytes),
        before.wf(metadata),
        before.tracker.requested matches Some(p) ==> p < before.tracker.blocks.len(),
        8 * theirs.len() <= usize::MAX,
        piece < 8 * theirs.len(),
        bits::bit_at(theirs, piece as int),
        piece < tracker_after(before.tracker, update).blocks.len(),
        0 <= block < tracker_after(before.tracker, update).blocks[piece as int].len(),
        tracker_after(before.tracker, update).blocks[piece as int][block]
            == BlockState::UnRequested,
    ensures
        ({
            let updated = tracker_after(before.tracker, update);
            let first = update_bytes(before.tracker, metadata, update) + interest_bytes(
                before.told,
                after.told,
            );
            let room = updated.num_requested < updated.pipeline_len;
            &&& after.told <==> exists|i: int|
                0 <= i < 8 * mine.len() && i < 8 * theirs.len() && !bits::bit_at(mine, i)
                    && #[trigger] bits::bit_at(theirs, i)
            &&& choked || !room ==> bytes == first
            &&& !choked && room ==> {
                &&& bytes.len() == first.len() + 17
                &&& bytes.take(first.len() as int) == first
                &&& bytes.subrange(first.len() as int, (first.len() + 5) as int) == seq![
                    0u8,
                    0u8,
                    0u8,
                    13u8,
                    6u8,
                ]
            }
        }),
{
    let updated = tracker_after(before.tracker, update);
    let listed = message::set_below(theirs, 8 * theirs.len() as int);
    let first = update_bytes(before.tracker, metadata, update) + interest_bytes(
        before.told,
        lacks(mine, theirs),
    );
    message::set_positions_are_those_of_ones(theirs, 8 * theirs.len() as int);
    assert(listed.contains(piece));
    let i = listed.index_of(piece);
    if !choked {
        let found = choose|found: Option<(u32, u32)>| #[trigger]
            updated.requests(listed, after.tracker, found) && bytes == first + writing::asks(
                metadata,
                true,
                found,
            );
        pieces::blocks_are_found_where_there_are_any(
            updated,
            listed,
            after.tracker,
            found,
            i,
            block,
        );
        let same = update_of(update);
        writing::updated_trackers_fit(before, metadata, same);
        assert(updated == writing::tracker_after(before.tracker, same));
        requests::requests_name_blocks(updated, listed, after.tracker, found, metadata);
        writing::found_blocks_are_asked_for(metadata, true, found);
        let asked = writing::asks(metadata, true, found);
        if found is Some {
            assert(bytes.take(first.len() as int) =~= first);
            assert(bytes.subrange(first.len() as int, (first.len() + 5) as int) =~= asked.take(5));
        } else {
            assert(bytes =~= first);
        }
    }
}

/// Besides what an update causes and a change of interest, a round that goes on sends nothing or one
/// request, which names a block that had not been asked for before and is marked as asked for
/// afterwards.
pub proof fn rounds_send_nothing_else(
    before: WriterModel,
    after: WriterModel,
    metadata: Metadata,
    update: Result<ThreadUpdate, TryRecvError>,
    choked: bool,
    mine: Seq<u8>,
    theirs: Seq<u8>,
    bytes: Seq<u8>,
)
    requires
        goes_on(before, after, metadata, update, choked, mine, theirs, bytes),
        before.wf(metadata),
    ensures
        ({
            let updated = tracker_after(before.tracker, update);
            let first = update_bytes(before.tracker, metadata, update) + interest_bytes(
                before.told,
                after.told,
            );
            let last = bytes.skip(first.len() as int);
            &&& bytes == first + last
            &&& choked ==> last.len() == 0 && after.tracker == updated
            &&& last.len() == 0 || {
                &&& last.len() == 17
                &&& last.take(5) == seq![0u8, 0u8, 0u8, 13u8, 6u8]
                &&& exists|p: int, b: int|
                    {
                        &&& 0 <= p < updated.blocks.len()
                        &&& 0 <= b < updated.blocks[p].len()
                        &&& updated.blocks[p][b] == BlockState::UnRequested
                        &&& #[trigger] after.tracker.blocks[p][b] == BlockState::Requested
                        &&& wire::value(last.subrange(5, 9)) == p
                        &&& wire::value(last.subrange(9, 13)) == b * 16384
                    }
            }
        }),
{
    let updated = tracker_after(before.tracker, update);
    let first = update_bytes(before.tracker, metadata, update) + interest_bytes(
        before.told,
        after.told,
    );
    if choked {
        assert(bytes.skip(first.len() as int) =~= Seq::<u8>::empty());
        assert(bytes =~= first + bytes.skip(first.len() as int));
    } else {
        let listed = message::set_below(theirs, 8 * theirs.len() as int);
        let found = choose|found: Option<(u32, u32)>| #[trigger]
            updated.requests(listed, after.tracker, found) && bytes == first + writing::asks(
                metadata,
                true,
                found,
            );
        let same = update_of(update);
        writing::updated_trackers_fit(before, metadata, same);
        assert(updated == writing::tracker_after(before.tracker, same));
        writing::requests_name_new_blocks(updated, listed, after.tracker, found, metadata, true);
        assert(bytes.skip(first.len() as int) =~= writing::asks(metadata, true, found));
    }
}

} // verus!
