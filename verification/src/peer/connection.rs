//! The reading half of a session.
use crate::bits;
use crate::bits::PieceBits;
use crate::layout;
use crate::layout::FileSlice;
use crate::parsing::Metadata;
use crate::peer::blocks::BLOCK_SIZE;
use crate::peer::message::{Message, MessageId};
use crate::peer::state;
use crate::peer::state::{PeerState, StateModel};
use crate::wire;
use crate::{RecvError, ThreadUpdate};
use vstd::prelude::*;

verus! {

/// Whether the session is over after an update from the other half. Nothing is decided where updates
/// are lost.
pub open spec fn over_after(message: Result<ThreadUpdate, RecvError>) -> Option<bool> {
    match message {
        Err(RecvError::Lagged(_)) => None,
        Err(RecvError::Closed) => Some(true),
        Ok(update) => Some(update == ThreadUpdate::Disconnect),
    }
}

/// Decides on an update from the other half: whether the session is over.
pub fn handle_channel_message(message: Result<ThreadUpdate, RecvError>) -> (stop: Result<
    bool,
    &'static str,
>)
    ensures
        match stop {
            Ok(stop) => over_after(message) == Some(stop),
            Err(text) => over_after(message) is None && text@ == "Stream lagged"@,
        },
{
    match message {
        Err(RecvError::Lagged(_)) => Err("Stream lagged"),
        Err(RecvError::Closed) => Ok(true),
        Ok(ThreadUpdate::Disconnect) => Ok(true),
        Ok(_) => Ok(false),
    }
}

/// What the reading half has to do after a message.
#[derive(Copy, Clone, Debug, PartialEq, Eq, Structural)]
pub enum Step {
    /// Wake whoever waits for the peer to choke or to stop choking.
    NotifyChoking,
    /// Wake whoever waits for a change of interest.
    NotifyInterest,
    /// Send an update to the other tasks.
    Tell(ThreadUpdate),
    /// Queue a request of the peer: a piece, the first byte in it and a length.
    Queue(u32, u32, u32),
    /// Write a part of the block that was received to a file. The number tells where the part starts
    /// in the block.
    Write(FileSlice, usize),
}

/// The number of bytes that are read after the header of a message.
pub open spec fn payload_length(message: Message) -> int {
    match message.message_id {
        Some(MessageId::Have) => 4,
        Some(MessageId::BitField) => message.length - 1,
        Some(MessageId::Request) => 12,
        Some(MessageId::Cancel) => 12,
        Some(MessageId::Piece) => 8 + (message.length - 9),
        Some(MessageId::Port) => 2,
        Some(MessageId::SuggestPiece) => 4,
        Some(MessageId::RejectRequest) => 12,
        Some(MessageId::AllowedFast) => 4,
        _ => 0,
    }
}

/// The header announces at least what its kind of message always holds.
pub open spec fn long_enough(message: Message) -> bool {
    match message.message_id {
        Some(MessageId::BitField) => message.length >= 1,
        Some(MessageId::Piece) => message.length >= 9,
        _ => true,
    }
}

/// Whether the header announces at least what its kind of message always holds.
pub fn is_long_enough(message: &Message) -> (enough: bool)
    ensures
        enough == long_enough(*message),
{
    match message.message_id {
        Some(MessageId::BitField) => message.length >= 1,
        Some(MessageId::Piece) => message.length >= 9,
        _ => true,
    }
}

/// The number of bytes to read after the header of a message.
pub fn bytes_to_read(message: &Message) -> (count: usize)
    requires
        long_enough(*message),
    ensures
        count == payload_length(*message),
{
    match message.message_id {
        Some(MessageId::Have) => 4,
        Some(MessageId::BitField) => message.length as usize - 1,
        Some(MessageId::Request) => 12,
        Some(MessageId::Cancel) => 12,
        Some(MessageId::Piece) => message.length as usize - 1,
        Some(MessageId::Port) => 2,
        Some(MessageId::SuggestPiece) => 4,
        Some(MessageId::RejectRequest) => 12,
        Some(MessageId::AllowedFast) => 4,
        _ => 0,
    }
}

/// The 32-bit number at a position of a payload.
pub open spec fn number_at(payload: Seq<u8>, at: int) -> u32 {
    wire::from_be32(payload.subrange(at, at + 4))
}

/// What a message says can be: the payload has the right length, a piece that it names exists, and a
/// set of pieces has a bit for every piece.
pub open spec fn makes_sense(state: StateModel, message: Message, payload: Seq<u8>) -> bool {
    &&& long_enough(message)
    &&& payload.len() == payload_length(message)
    &&& match message.message_id {
        Some(MessageId::Have) => number_at(payload, 0) < state.theirs.len(),
        Some(MessageId::BitField) => state.theirs.len() <= 8 * payload.len() <= bits::max_bits(),
        _ => true,
    }
}

/// Whether what a message says can be.
pub fn is_sensible(state: &PeerState, message: &Message, payload: &[u8]) -> (sensible: bool)
    ensures
        sensible == makes_sense(state@, *message, payload@),
{
    if !is_long_enough(message) || payload.len() != bytes_to_read(message) {
        return false;
    }
    match message.message_id {
        Some(MessageId::Have) => (wire::u32_at(payload, 0) as usize) < state.peer_bitfield.len(),
        Some(MessageId::BitField) => payload.len() <= usize::MAX / 8 / 8
            && state.peer_bitfield.len() <= 8 * payload.len(),
        _ => true,
    }
}

/// The steps that write the parts of a block, one after the other.
pub open spec fn writes(parts: Seq<FileSlice>) -> Seq<Step> {
    Seq::new(
        parts.len(),
        |k: int| Step::Write(parts[k], layout::bytes_in(parts.take(k)) as usize),
    )
}

/// The message that ends the session, for a peer that does not support the fast extension but uses
/// it.
pub open spec fn unless_fast(state: StateModel) -> Seq<Step> {
    if state.fast {
        Seq::empty()
    } else {
        seq![Step::Tell(ThreadUpdate::Disconnect)]
    }
}

/// The pieces of the peer after a set of pieces has been received.
pub open spec fn joined_bits(theirs: Seq<bool>, payload: Seq<u8>) -> Seq<bool> {
    Seq::new(theirs.len(), |i: int| theirs[i] || bits::bit_at(payload, i))
}

/// Every piece is there.
pub open spec fn complete(mine: Seq<bool>) -> bool {
    forall|i: int| 0 <= i < mine.len() ==> mine[i]
}

/// The state after a message.
pub open spec fn state_after(
    state: StateModel,
    mine: Seq<bool>,
    message: Message,
    payload: Seq<u8>,
) -> StateModel {
    match message.message_id {
        Some(MessageId::Choke) => StateModel { peer_choking: true, ..state },
        Some(MessageId::UnChoke) => StateModel { peer_choking: false, ..state },
        Some(MessageId::Interested) => StateModel { peer_interested: true, ..state },
        Some(MessageId::NotInterested) => StateModel { peer_interested: false, ..state },
        Some(MessageId::Have) => StateModel {
            theirs: state.theirs.update(number_at(payload, 0) as int, true),
            am_interested: state.am_interested || !state.theirs[number_at(payload, 0) as int],
            ..state
        },
        Some(MessageId::BitField) => StateModel {
            theirs: joined_bits(state.theirs, payload),
            am_interested: state.am_interested || state::wants(
                mine,
                joined_bits(state.theirs, payload),
            ),
            ..state
        },
        Some(MessageId::HaveAll) => StateModel {
            theirs: Seq::new(state.theirs.len(), |i: int| true),
            am_interested: state.am_interested || !complete(mine),
            ..state
        },
        Some(MessageId::HaveNone) => StateModel {
            theirs: Seq::new(state.theirs.len(), |i: int| false),
            am_interested: false,
            ..state
        },
        _ => state,
    }
}

/// The block in a message lies inside the torrent, where the message brings one.
pub open spec fn block_fits(metadata: Metadata, message: Message, payload: Seq<u8>) -> bool {
    message.message_id == Some(MessageId::Piece) ==> metadata.position(
        number_at(payload, 0) as int,
        number_at(payload, 4) + (payload.len() - 8),
    ) <= metadata.info.torr_type.total()
}

/// The parts of the files that a block in a message belongs to.
pub open spec fn block_parts(metadata: Metadata, payload: Seq<u8>) -> Seq<FileSlice> {
    let piece = number_at(payload, 0) as int;
    let begin = number_at(payload, 4) as int;
    layout::parts(
        metadata.info.torr_type.lengths(),
        metadata.info.torr_type.lengths().len() as int,
        metadata.position(piece, begin),
        metadata.position(piece, begin + (payload.len() - 8)),
    )
}

/// What has to be done after a message.
pub open spec fn steps_after(
    state: StateModel,
    mine: Seq<bool>,
    metadata: Metadata,
    message: Message,
    payload: Seq<u8>,
) -> Seq<Step> {
    match message.message_id {
        Some(MessageId::Choke) => seq![Step::NotifyChoking],
        Some(MessageId::UnChoke) => seq![Step::NotifyChoking],
        Some(MessageId::Have) => if state.theirs[number_at(payload, 0) as int] {
            Seq::empty()
        } else {
            seq![Step::NotifyInterest]
        },
        Some(MessageId::BitField) => if state::wants(mine, joined_bits(state.theirs, payload)) {
            seq![Step::NotifyInterest]
        } else {
            Seq::empty()
        },
        Some(MessageId::Request) => seq![
            Step::Queue(number_at(payload, 0), number_at(payload, 4), number_at(payload, 8)),
        ],
        Some(MessageId::Cancel) => if state.am_choking {
            Seq::empty()
        } else {
            seq![Step::Queue(number_at(payload, 0), number_at(payload, 4), 0)]
        },
        Some(MessageId::Piece) => writes(block_parts(metadata, payload)).push(
            Step::Tell(
                ThreadUpdate::Downloaded(
                    number_at(payload, 0),
                    (number_at(payload, 4) / BLOCK_SIZE) as u32,
                ),
            ),
        ),
        Some(MessageId::HaveAll) => unless_fast(state) + if complete(mine) {
            Seq::empty()
        } else {
            seq![Step::NotifyInterest]
        },
        Some(MessageId::HaveNone) => unless_fast(state).push(Step::NotifyInterest),
        Some(MessageId::SuggestPiece) => unless_fast(state),
        Some(MessageId::RejectRequest) => unless_fast(state),
        Some(MessageId::AllowedFast) => unless_fast(state),
        _ => Seq::empty(),
    }
}

/// The message that ends the session, for a peer that does not support the fast extension but uses
/// it.
fn disconnect_unless_fast(state: &PeerState) -> (steps: Vec<Step>)
    ensures
        steps@ == unless_fast(state@),
{
    let mut steps: Vec<Step> = Vec::new();
    if !state.reserved.supports_fast() {
        steps.push(Step::Tell(ThreadUpdate::Disconnect));
    }
    assert(steps@ =~= unless_fast(state@));
    steps
}

/// Adds the pieces that the peer says it has.
fn receive_bits(state: &mut PeerState, payload: &[u8])
    requires
        old(state)@.theirs.len() <= 8 * payload@.len() <= bits::max_bits(),
    ensures
        final(state)@ == (StateModel {
            theirs: joined_bits(old(state)@.theirs, payload@),
            ..old(state)@
        }),
{
    let ghost before = state@.theirs;
    let num_pieces: usize = state.peer_bitfield.len();
    let received = PieceBits::from_slice(payload).prefix(num_pieces);
    let ones = received.iter_ones();
    proof {
        bits::positions_are_those_of_ones(received@);
    }
    let mut i: usize = 0;
    while i < ones.len()
        invariant
            i <= ones@.len(),
            num_pieces == before.len(),
            received@.len() == num_pieces,
            ones@ == bits::positions_of_ones(received@),
            forall|p: usize| #[trigger]
                ones@.contains(p) <==> p < received@.len() && received@[p as int],
            state@ == (StateModel { theirs: state@.theirs, ..old(state)@ }),
            state@.theirs.len() == num_pieces,
            forall|p: usize|
                p < num_pieces ==> #[trigger] state@.theirs[p as int] == (before[p as int]
                    || ones@.take(i as int).contains(p)),
        decreases ones@.len() - i,
    {
        let ghost seen = state@.theirs;
        let at: usize = ones[i];
        assert(ones@.contains(at));
        state.peer_bitfield.set(at, true);
        proof {
            assert(state@.theirs =~= seen.update(at as int, true));
            assert forall|p: usize| p < num_pieces implies #[trigger] state@.theirs[p as int] == (
            before[p as int] || ones@.take(i + 1).contains(p)) by {
                assert(seen[p as int] == (before[p as int] || ones@.take(i as int).contains(p)));
                if ones@.take(i as int).contains(p) {
                    let k = ones@.take(i as int).index_of(p);
                    assert(ones@.take(i + 1)[k] == p);
                }
                if ones@.take(i + 1).contains(p) && p != at {
                    let k = ones@.take(i + 1).index_of(p);
                    assert(ones@.take(i as int)[k] == p);
                }
                if p == at {
                    assert(ones@.take(i + 1)[i as int] == p);
                }
            }
        }
        i = i + 1;
    }
    proof {
        assert(ones@.take(i as int) =~= ones@);
        assert forall|p: int| 0 <= p < num_pieces implies #[trigger] state@.theirs[p]
            == joined_bits(before, payload@)[p] by {
            let q = p as usize;
            assert(state@.theirs[q as int] == (before[q as int] || ones@.contains(q)));
        }
        assert(state@.theirs =~= joined_bits(before, payload@));
    }
}

/// Lists the steps that write a block to its files.
fn write_steps(parts: &Vec<FileSlice>) -> (steps: Vec<Step>)
    requires
        layout::bytes_in(parts@) <= usize::MAX,
    ensures
        steps@ == writes(parts@),
{
    let mut steps: Vec<Step> = Vec::new();
    let mut position: usize = 0;
    let mut i: usize = 0;
    assert(parts@.take(0) =~= Seq::<FileSlice>::empty());
    while i < parts.len()
        invariant
            i <= parts@.len(),
            layout::bytes_in(parts@) <= usize::MAX,
            position == layout::bytes_in(parts@.take(i as int)),
            steps@ =~= writes(parts@).take(i as int),
        decreases parts@.len() - i,
    {
        steps.push(Step::Write(parts[i], position));
        proof {
            assert(parts@.take(i + 1).drop_last() =~= parts@.take(i as int));
            layout::bytes_ascend(parts@, i + 1);
        }
        position = position + parts[i].length as usize;
        i = i + 1;
    }
    assert(writes(parts@).take(i as int) =~= writes(parts@));
    steps
}

/// Takes in a message and its payload: changes the state and tells what has to be done. A block that
/// lies outside of the torrent is an error, and changes nothing.
pub fn process_message(
    state: &mut PeerState,
    my_bitfield: &PieceBits,
    metadata: &Metadata,
    message: &Message,
    payload: &[u8],
) -> (steps: Result<Vec<Step>, &'static str>)
    requires
        metadata.wf(),
        makes_sense(old(state)@, *message, payload@),
    ensures
        match steps {
            Ok(steps) => {
                &&& block_fits(*metadata, *message, payload@)
                &&& steps@ == steps_after(
                    old(state)@,
                    my_bitfield@,
                    *metadata,
                    *message,
                    payload@,
                )
                &&& final(state)@ == state_after(old(state)@, my_bitfield@, *message, payload@)
            },
            Err(text) => {
                &&& !block_fits(*metadata, *message, payload@)
                &&& text@ == "Block lies outside of the torrent"@
                &&& final(state)@ == old(state)@
            },
        },
{
    let mut steps: Vec<Step> = Vec::new();
    let Some(message_id) = message.message_id else {
        return Ok(steps);
    };
    match message_id {
        MessageId::Choke => {
            state.peer_choking = true;
            steps.push(Step::NotifyChoking);
        },
        MessageId::UnChoke => {
            state.peer_choking = false;
            steps.push(Step::NotifyChoking);
        },
        MessageId::Interested => {
            state.peer_interested = true;
        },
        MessageId::NotInterested => {
            state.peer_interested = false;
        },
        MessageId::Have => {
            let index: u32 = wire::u32_at(payload, 0);
            let prev = state.peer_bitfield.replace(index as usize, true);
            if !prev {
                state.am_interested = true;
                steps.push(Step::NotifyInterest);
            }
        },
        MessageId::BitField => {
            receive_bits(state, payload);
            if state.should_be_interested(my_bitfield) {
                state.am_interested = true;
                steps.push(Step::NotifyInterest);
            }
        },
        MessageId::Request => {
            let piece_index: u32 = wire::u32_at(payload, 0);
            let begin: u32 = wire::u32_at(payload, 4);
            let data_len: u32 = wire::u32_at(payload, 8);
            steps.push(Step::Queue(piece_index, begin, data_len));
        },
        MessageId::Cancel => {
            let piece_index: u32 = wire::u32_at(payload, 0);
            let begin: u32 = wire::u32_at(payload, 4);
            if !state.am_choking {
                steps.push(Step::Queue(piece_index, begin, 0));
            }
        },
        MessageId::Piece => {
            let piece_index: u32 = wire::u32_at(payload, 0);
            let begin: u32 = wire::u32_at(payload, 4);
            let data_len: usize = payload.len() - 8;
            match metadata.file_info_from_piece_block(
                piece_index as u64,
                begin as u64,
                data_len as u64,
            ) {
                Err(text) => {
                    return Err(text);
                },
                Ok(parts) => {
                    proof {
                        crate::parsing::blocks_are_found_whole(
                            *metadata,
                            piece_index as int,
                            begin as int,
                            data_len as int,
                            0,
                        );
                    }
                    steps = write_steps(&parts);
                    steps.push(Step::Tell(ThreadUpdate::Downloaded(piece_index, begin / BLOCK_SIZE)));
                },
            }
        },
        MessageId::Port => {},
        MessageId::HaveAll => {
            steps = disconnect_unless_fast(state);
            state.peer_bitfield.fill(true);
            if !my_bitfield.all() {
                state.am_interested = true;
                steps.push(Step::NotifyInterest);
            }
        },
        MessageId::HaveNone => {
            steps = disconnect_unless_fast(state);
            state.peer_bitfield.fill(false);
            state.am_interested = false;
            steps.push(Step::NotifyInterest);
        },
        MessageId::SuggestPiece => {
            steps = disconnect_unless_fast(state);
        },
        MessageId::RejectRequest => {
            steps = disconnect_unless_fast(state);
        },
        MessageId::AllowedFast => {
            steps = disconnect_unless_fast(state);
        },
    }
    assert(steps@ =~= steps_after(old(state)@, my_bitfield@, *metadata, *message, payload@));
    assert(state@ =~= state_after(old(state)@, my_bitfield@, *message, payload@));
    Ok(steps)
}

/// While the client's pieces stay the same, a message never leaves the client without interest in a
/// peer that has a piece it lacks.
pub proof fn wanted_pieces_keep_interest(
    state: StateModel,
    mine: Seq<bool>,
    message: Message,
    payload: Seq<u8>,
)
    requires
        makes_sense(state, message, payload),
        state::wants(mine, state.theirs) ==> state.am_interested,
    ensures
        ({
            let after = state_after(state, mine, message, payload);
            &&& after.theirs.len() == state.theirs.len()
            &&& state::wants(mine, after.theirs) ==> after.am_interested
        }),
{
    let after = state_after(state, mine, message, payload);
    if state::wants(mine, after.theirs) && !state.am_interested {
        let i = choose|i: int|
            0 <= i < mine.len() && i < after.theirs.len() && !#[trigger] mine[i] && after.theirs[i];
        assert(!state.theirs[i]);
    }
}

/// A message adds to the pieces of the peer, but for the one that says that it has none.
pub proof fn pieces_are_only_added(
    state: StateModel,
    mine: Seq<bool>,
    message: Message,
    payload: Seq<u8>,
    i: int,
)
    requires
        makes_sense(state, message, payload),
        message.message_id != Some(MessageId::HaveNone),
        0 <= i < state.theirs.len(),
        state.theirs[i],
    ensures
        state_after(state, mine, message, payload).theirs[i],
{
}

/// A peer that uses the fast extension without supporting it is disconnected, and no other message
/// does that.
pub proof fn fast_messages_need_support(
    state: StateModel,
    mine: Seq<bool>,
    metadata: Metadata,
    message: Message,
    payload: Seq<u8>,
)
    ensures
        steps_after(state, mine, metadata, message, payload).contains(
            Step::Tell(ThreadUpdate::Disconnect),
        ) <==> !state.fast && (message.message_id == Some(MessageId::SuggestPiece)
            || message.message_id == Some(MessageId::HaveAll) || message.message_id == Some(
            MessageId::HaveNone,
        ) || message.message_id == Some(MessageId::RejectRequest) || message.message_id == Some(
            MessageId::AllowedFast,
        )),
{
    let steps = steps_after(state, mine, metadata, message, payload);
    if !state.fast {
        assert(unless_fast(state)[0] == Step::Tell(ThreadUpdate::Disconnect));
        match message.message_id {
            Some(MessageId::HaveAll)
            | Some(MessageId::HaveNone)
            | Some(MessageId::SuggestPiece)
            | Some(MessageId::RejectRequest)
            | Some(MessageId::AllowedFast) => {
                assert(steps[0] == Step::Tell(ThreadUpdate::Disconnect));
            },
            _ => {},
        }
    }
}

/// The session is over when the other half says so or is gone, and only lost updates leave it open
/// whether it is.
pub proof fn sessions_end_by_disconnection(message: Result<ThreadUpdate, RecvError>)
    ensures
        over_after(message) == Some(true) <==> message == Ok::<ThreadUpdate, RecvError>(
            ThreadUpdate::Disconnect,
        ) || message == Err::<ThreadUpdate, RecvError>(RecvError::Closed),
        over_after(message) is None <==> (message matches Err(error) && error is Lagged),
{
}

/// The number at a position of a payload is the one that its four bytes spell.
pub proof fn numbers_are_spelled_out(payload: Seq<u8>, at: int)
    requires
        0 <= at,
        at + 4 <= payload.len(),
    ensures
        number_at(payload, at) == wire::value(payload.subrange(at, at + 4)),
{
    let four = payload.subrange(at, at + 4);
    wire::integers_are_spelled_out(0, 0, 0, four.take(2), four, four + four);
}

/// A message has a payload of the length that its kind has: none where it only says something, two
/// bytes for a port, four for a piece, twelve for a block, and for a set of pieces or the data of a
/// block what its header announces after the byte that tells its kind.
pub proof fn payloads_have_the_length_of_their_kind(message: Message)
    ensures
        payload_length(message) == (match message.message_id {
            None => 0,
            Some(MessageId::Choke) | Some(MessageId::UnChoke) => 0,
            Some(MessageId::Interested) | Some(MessageId::NotInterested) => 0,
            Some(MessageId::HaveAll) | Some(MessageId::HaveNone) => 0,
            Some(MessageId::Port) => 2,
            Some(MessageId::Have) => 4,
            Some(MessageId::SuggestPiece) | Some(MessageId::AllowedFast) => 4,
            Some(MessageId::Request) | Some(MessageId::Cancel) => 12,
            Some(MessageId::RejectRequest) => 12,
            Some(MessageId::BitField) | Some(MessageId::Piece) => message.length - 1,
        }),
        long_enough(message) <==> {
            &&& message.message_id == Some(MessageId::BitField) ==> message.length >= 1
            &&& message.message_id == Some(MessageId::Piece) ==> message.length >= 9
        },
{
}

/// A message of the right length makes sense, unless it is about a piece that the torrent does not
/// have or is a set with too few bits for the pieces.
pub proof fn messages_of_the_right_length_make_sense(
    state: StateModel,
    message: Message,
    payload: Seq<u8>,
)
    requires
        long_enough(message),
        payload.len() == payload_length(message),
    ensures
        makes_sense(state, message, payload) <==> {
            &&& message.message_id == Some(MessageId::Have) ==> wire::value(payload)
                < state.theirs.len()
            &&& message.message_id == Some(MessageId::BitField) ==> state.theirs.len() <= 8
                * payload.len() <= bits::max_bits()
        },
{
    if message.message_id == Some(MessageId::Have) {
        numbers_are_spelled_out(payload, 0);
        assert(payload.subrange(0, 4) =~= payload);
    }
}

/// The peer is choking the client after it has said so and until it says otherwise, and likewise it
/// is interested. No message changes which extensions it supports or whether the client is choking
/// it.
pub proof fn peers_choke_and_want_as_they_say(
    state: StateModel,
    mine: Seq<bool>,
    message: Message,
    payload: Seq<u8>,
)
    ensures
        ({
            let after = state_after(state, mine, message, payload);
            let id = message.message_id;
            &&& after.peer_choking == (id == Some(MessageId::Choke) || (id != Some(
                MessageId::UnChoke,
            ) && state.peer_choking))
            &&& after.peer_interested == (id == Some(MessageId::Interested) || (id != Some(
                MessageId::NotInterested,
            ) && state.peer_interested))
            &&& after.fast == state.fast
            &&& after.am_choking == state.am_choking
        }),
{
}

/// After a message the peer is known to have a piece exactly when it was known to before and has not
/// said that it has none, or when the message tells of the piece: by its number, by its bit, or by
/// telling of all pieces.
pub proof fn peers_have_what_they_tell_of(
    state: StateModel,
    mine: Seq<bool>,
    message: Message,
    payload: Seq<u8>,
    piece: int,
)
    requires
        makes_sense(state, message, payload),
        0 <= piece < state.theirs.len(),
    ensures
        ({
            let after = state_after(state, mine, message, payload);
            let id = message.message_id;
            &&& after.theirs.len() == state.theirs.len()
            &&& after.theirs[piece] <==> {
                ||| state.theirs[piece] && id != Some(MessageId::HaveNone)
                ||| id == Some(MessageId::Have) && wire::value(payload) == piece
                ||| id == Some(MessageId::BitField) && bits::bit_of(payload[piece / 8], piece % 8)
                ||| id == Some(MessageId::HaveAll)
            }
        }),
{
    if message.message_id == Some(MessageId::Have) {
        numbers_are_spelled_out(payload, 0);
        assert(payload.subrange(0, 4) =~= payload);
    }
}

/// The client becomes interested when the peer tells of a piece that it was not known to have, when
/// after a set of pieces it has one that the client lacks, and when it has all and the client does
/// not. It loses interest when the peer has none. Nothing else changes its interest, and whoever waits
/// for a change of interest is woken exactly in these cases.
pub proof fn interest_follows_what_peers_have(
    state: StateModel,
    mine: Seq<bool>,
    metadata: Metadata,
    message: Message,
    payload: Seq<u8>,
)
    requires
        makes_sense(state, message, payload),
    ensures
        ({
            let after = state_after(state, mine, message, payload);
            let steps = steps_after(state, mine, metadata, message, payload);
            let id = message.message_id;
            let news = {
                ||| id == Some(MessageId::Have) && !state.theirs[wire::value(payload)]
                ||| id == Some(MessageId::BitField) && (exists|i: int|
                    0 <= i < mine.len() && i < after.theirs.len() && !#[trigger] mine[i]
                        && after.theirs[i])
                ||| id == Some(MessageId::HaveAll) && (exists|i: int|
                    0 <= i < mine.len() && !#[trigger] mine[i])
            };
            &&& after.am_interested <==> news || (state.am_interested && id != Some(
                MessageId::HaveNone,
            ))
            &&& steps.contains(Step::NotifyInterest) <==> news || id == Some(MessageId::HaveNone)
        }),
{
    let steps = steps_after(state, mine, metadata, message, payload);
    let after = state_after(state, mine, message, payload);
    match message.message_id {
        Some(MessageId::Have) => {
            numbers_are_spelled_out(payload, 0);
            assert(payload.subrange(0, 4) =~= payload);
            if !state.theirs[wire::value(payload)] {
                assert(steps[0] == Step::NotifyInterest);
            }
        },
        Some(MessageId::BitField) => {
            if state::wants(mine, after.theirs) {
                assert(steps[0] == Step::NotifyInterest);
            }
        },
        Some(MessageId::HaveAll) => {
            if !complete(mine) {
                let i = choose|i: int| 0 <= i < mine.len() && !mine[i];
                assert(!mine[i]);
                assert(steps[steps.len() - 1] == Step::NotifyInterest);
            }
        },
        Some(MessageId::HaveNone) => {
            assert(steps[steps.len() - 1] == Step::NotifyInterest);
        },
        _ => {},
    }
}

/// Whoever waits for choking is woken exactly when the peer chokes or stops choking. What the peer
/// asks for is queued as it asks for it, and what it takes back is queued with no length, unless the
/// client is choking it. Nothing else is queued.
pub proof fn requests_of_peers_are_queued(
    state: StateModel,
    mine: Seq<bool>,
    metadata: Metadata,
    message: Message,
    payload: Seq<u8>,
    piece: u32,
    begin: u32,
    length: u32,
)
    requires
        makes_sense(state, message, payload),
    ensures
        ({
            let steps = steps_after(state, mine, metadata, message, payload);
            let id = message.message_id;
            &&& steps.contains(Step::NotifyChoking) <==> id == Some(MessageId::Choke) || id == Some(
                MessageId::UnChoke,
            )
            &&& steps.contains(Step::Queue(piece, begin, length)) <==> {
                &&& id == Some(MessageId::Request) || id == Some(MessageId::Cancel)
                    && !state.am_choking
                &&& piece == wire::value(payload.subrange(0, 4))
                &&& begin == wire::value(payload.subrange(4, 8))
                &&& length == (if id == Some(MessageId::Request) {
                    wire::value(payload.subrange(8, 12))
                } else {
                    0
                })
            }
            &&& id == Some(MessageId::Request) ==> steps.len() == 1
        }),
{
    let steps = steps_after(state, mine, metadata, message, payload);
    match message.message_id {
        Some(MessageId::Choke) | Some(MessageId::UnChoke) => {
            assert(steps[0] == Step::NotifyChoking);
        },
        Some(MessageId::Request) | Some(MessageId::Cancel) => {
            numbers_are_spelled_out(payload, 0);
            numbers_are_spelled_out(payload, 4);
            numbers_are_spelled_out(payload, 8);
            if steps.len() > 0 {
                assert(steps[0] is Queue);
                assert(steps.contains(steps[0]));
            }
        },
        _ => {},
    }
}

/// A block is told of after it has been written: the last step names its piece and the number of
/// whole blocks of 16384 bytes before it, and all steps before write a part of it to a file. No other
/// message writes anything or tells of a block.
pub proof fn blocks_are_told_of_when_written(
    state: StateModel,
    mine: Seq<bool>,
    metadata: Metadata,
    message: Message,
    payload: Seq<u8>,
    k: int,
)
    requires
        makes_sense(state, message, payload),
        0 <= k < steps_after(state, mine, metadata, message, payload).len(),
    ensures
        ({
            let steps = steps_after(state, mine, metadata, message, payload);
            if message.message_id == Some(MessageId::Piece) {
                if k < steps.len() - 1 {
                    steps[k] is Write
                } else {
                    steps[k] matches Step::Tell(ThreadUpdate::Downloaded(piece, block)) && piece
                        == wire::value(payload.subrange(0, 4)) && block * 16384 <= wire::value(
                        payload.subrange(4, 8),
                    ) < block * 16384 + 16384
                }
            } else {
                !(steps[k] is Write) && (steps[k] is Tell ==> steps[k] == Step::Tell(
                    ThreadUpdate::Disconnect,
                ))
            }
        }),
{
    if message.message_id == Some(MessageId::Piece) {
        numbers_are_spelled_out(payload, 0);
        numbers_are_spelled_out(payload, 4);
    }
}

/// A message that brings a block is an error exactly when the block ends past the end of the torrent.
pub proof fn blocks_end_inside_the_torrent(metadata: Metadata, message: Message, payload: Seq<u8>)
    requires
        payload.len() >= 8,
    ensures
        block_fits(metadata, message, payload) <==> (message.message_id == Some(MessageId::Piece)
            ==> wire::value(payload.subrange(0, 4)) * metadata.info.piece_length + wire::value(
            payload.subrange(4, 8),
        ) + (payload.len() - 8) <= metadata.info.torr_type.total()),
{
    numbers_are_spelled_out(payload, 0);
    numbers_are_spelled_out(payload, 4);
}

} // verus!
