//! What a session knows about its peer.
use crate::bits;
use crate::bits::PieceBits;
use crate::parsing::Metadata;
use crate::peer::handshake;
use crate::peer::handshake::Reserved;
use vstd::prelude::*;

verus! {

/// The state that the two halves of a session share.
#[derive(Debug)]
pub struct PeerState {
    /// The extensions that the peer supports.
    pub reserved: Reserved,
    /// The pieces that the peer has.
    pub peer_bitfield: PieceBits,
    /// Whether the peer is choking the client.
    pub peer_choking: bool,
    /// Whether the client wants something that the peer has.
    pub am_interested: bool,
    /// Whether the client is choking the peer.
    pub am_choking: bool,
    /// Whether the peer wants something that the client has.
    pub peer_interested: bool,
}

/// The shared state, seen from outside.
#[verifier::ext_equal]
pub struct StateModel {
    /// Whether the peer supports the fast extension.
    pub fast: bool,
    /// The pieces that the peer has.
    pub theirs: Seq<bool>,
    /// Whether the peer is choking the client.
    pub peer_choking: bool,
    /// Whether the client wants something that the peer has.
    pub am_interested: bool,
    /// Whether the client is choking the peer.
    pub am_choking: bool,
    /// Whether the peer wants something that the client has.
    pub peer_interested: bool,
}

impl View for PeerState {
    type V = StateModel;

    open spec fn view(&self) -> StateModel {
        StateModel {
            fast: handshake::supports_fast(self.reserved.0@),
            theirs: self.peer_bitfield@,
            peer_choking: self.peer_choking,
            am_interested: self.am_interested,
            am_choking: self.am_choking,
            peer_interested: self.peer_interested,
        }
    }
}

/// The state at the start of a session about a torrent of `count` pieces.
pub open spec fn at_start(fast: bool, count: nat) -> StateModel {
    StateModel {
        fast,
        theirs: Seq::new(count, |i: int| false),
        peer_choking: false,
        am_interested: false,
        am_choking: true,
        peer_interested: false,
    }
}

/// The peer has a piece that the client does not have.
pub open spec fn wants(mine: Seq<bool>, theirs: Seq<bool>) -> bool {
    exists|i: int| 0 <= i < mine.len() && i < theirs.len() && !#[trigger] mine[i] && theirs[i]
}

impl PeerState {
    /// The state at the start of a session. The client is choking, and nothing is known yet of the
    /// peer's pieces.
    pub fn channel(reserved: Reserved, metadata: &Metadata) -> (state: Self)
        requires
            metadata.wf(),
            metadata.piece_count() <= bits::max_bits(),
        ensures
            state@ == at_start(
                handshake::supports_fast(reserved.0@),
                metadata.piece_count() as nat,
            ),
    {
        let num_pieces: usize = metadata.num_pieces();
        PeerState {
            reserved,
            peer_bitfield: PieceBits::repeat(false, num_pieces),
            peer_choking: false,
            am_interested: false,
            am_choking: true,
            peer_interested: false,
        }
    }

    /// Whether the peer has a piece that the client does not have.
    pub fn should_be_interested(&self, my_bitfield: &PieceBits) -> (wanted: bool)
        ensures
            wanted == wants(my_bitfield@, self@.theirs),
    {
        let missing = my_bitfield.clone().not();
        let offered = missing.bitand(self.peer_bitfield.clone());
        assert(offered@.len() == my_bitfield@.len());
        assert forall|i: int| 0 <= i < offered@.len() implies #[trigger] offered@[i] == (
        !my_bitfield@[i] && i < self@.theirs.len() && self@.theirs[i]) by {}
        proof {
            if exists|i: int| 0 <= i < offered@.len() && offered@[i] {
                let i = choose|i: int| 0 <= i < offered@.len() && offered@[i];
                assert(!my_bitfield@[i]);
            }
            if wants(my_bitfield@, self@.theirs) {
                let i = choose|i: int|
                    0 <= i < my_bitfield@.len() && i < self@.theirs.len() && !#[trigger] my_bitfield@[i]
                        && self@.theirs[i];
                assert(offered@[i]);
            }
        }
        offered.any()
    }
}

/// One end of the queue of requests: what the reading half hears goes in, and the writing half takes
/// it out.
#[derive(Debug)]
pub enum ChannelHalf<S, R> {
    /// The end at which requests go in.
    Sender(S),
    /// The end at which requests come out.
    Receiver(R),
}

impl<S, R> ChannelHalf<S, R> {
    /// The end from which a request can be taken, if this is it.
    pub fn receiver(&mut self) -> (end: Option<&mut R>)
        ensures
            match *old(self) {
                ChannelHalf::Sender(_) => end is None && *final(self) == *old(self),
                ChannelHalf::Receiver(receiver) => {
                    &&& end is Some
                    &&& *end->0 == receiver
                    &&& *final(self) == ChannelHalf::<S, R>::Receiver(*final(end->0))
                },
            },
    {
        match self {
            ChannelHalf::Sender(_) => None,
            ChannelHalf::Receiver(receiver) => Some(receiver),
        }
    }

    /// The end into which a request can be put, or an error if this is the other one.
    pub fn sender(&self) -> (end: Result<&S, &'static str>)
        ensures
            match *self {
                ChannelHalf::Sender(sender) => end == Ok::<&S, &'static str>(&sender),
                ChannelHalf::Receiver(_) => end matches Err(message) && message@
                    == "Invalid call on Receiver"@,
            },
    {
        match self {
            ChannelHalf::Sender(sender) => Ok(sender),
            ChannelHalf::Receiver(_) => Err("Invalid call on Receiver"),
        }
    }
}

/// At the start of a session the peer is known to have no piece, so nothing of it is wanted. The
/// client is choking, and neither side has told anything yet.
pub proof fn sessions_begin_with_nothing_known(fast: bool, count: nat, mine: Seq<bool>)
    ensures
        ({
            let state = at_start(fast, count);
            &&& state.fast == fast
            &&& state.theirs.len() == count
            &&& forall|i: int| 0 <= i < count ==> !#[trigger] state.theirs[i]
            &&& !wants(mine, state.theirs)
            &&& !state.am_interested
            &&& state.am_choking
            &&& !state.peer_choking
            &&& !state.peer_interested
        }),
{
}

/// Nothing is wanted of a peer exactly when the client has every piece that the peer has, and a piece
/// more that only the peer has makes something wanted.
pub proof fn missing_pieces_are_wanted(mine: Seq<bool>, theirs: Seq<bool>, piece: int)
    requires
        mine.len() == theirs.len(),
        0 <= piece < mine.len(),
        !mine[piece],
    ensures
        !wants(mine, theirs) <==> (forall|i: int|
            0 <= i < mine.len() && #[trigger] theirs[i] ==> mine[i]),
        wants(mine, theirs.update(piece, true)),
{
    let more = theirs.update(piece, true);
    assert(!mine[piece] && more[piece]);
    if wants(mine, theirs) {
        let i = choose|i: int|
            0 <= i < mine.len() && i < theirs.len() && !#[trigger] mine[i] && theirs[i];
        assert(theirs[i]);
    }
    if !wants(mine, theirs) {
        assert forall|i: int| 0 <= i < mine.len() && #[trigger] theirs[i] implies mine[i] by {
            if !mine[i] {
                assert(wants(mine, theirs));
            }
        }
    }
}

} // verus!
