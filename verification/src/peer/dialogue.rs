//! What one client sends, as the other one hears it.
use crate::bits;
use crate::parsing::Metadata;
use crate::peer::connection;
use crate::peer::message;
use crate::peer::message::{Message, MessageId};
use crate::peer::peer;
use crate::peer::pieces::TrackerModel;
use crate::peer::state::StateModel;
use crate::peer::writing;
use crate::wire;
use crate::{RecvError, ThreadUpdate};
use vstd::prelude::*;

verus! {

/// A client that has not agreed on the fast extension ends the session when it hears a message of it.
pub open spec fn breaks_off(state: StateModel, header: Message) -> bool {
    !state.fast && (header.message_id matches Some(id) && message::byte_of(id) >= 13)
}

/// What a client with the pieces `mine` knows of its peer after it has heard all messages in a byte
/// string, or nothing where a message makes no sense, is not there in full or ends the session.
pub open spec fn hears(state: StateModel, mine: Seq<bool>, bytes: Seq<u8>) -> Option<StateModel>
    decreases bytes.len(),
{
    if bytes.len() == 0 {
        Some(state)
    } else if bytes.len() < 5 {
        None
    } else {
        match message::message_in(bytes) {
            Ok(Some(header)) => {
                let end = 5 + connection::payload_length(header);
                if 5 <= end <= bytes.len() {
                    let payload = bytes.subrange(5, end);
                    if connection::makes_sense(state, header, payload) && !breaks_off(state, header) {
                        hears(
                            connection::state_after(state, mine, header, payload),
                            mine,
                            bytes.skip(end),
                        )
                    } else {
                        None
                    }
                } else {
                    None
                }
            },
            _ => None,
        }
    }
}

/// A message is heard before what follows it.
proof fn hears_message_first(
    state: StateModel,
    mine: Seq<bool>,
    header: Message,
    payload: Seq<u8>,
    rest: Seq<u8>,
)
    requires
        header.length > 0,
        header.message_id is Some,
        connection::makes_sense(state, header, payload),
        !breaks_off(state, header),
    ensures
        hears(state, mine, message::header_bytes(header) + payload + rest) == hears(
            connection::state_after(state, mine, header, payload),
            mine,
            rest,
        ),
{
    let front = message::header_bytes(header);
    let bytes = front + payload + rest;
    assert(bytes =~= front + (payload + rest));
    message::headers_are_read_back(header, payload + rest, front);
    let end = 5 + payload.len();
    assert(bytes.subrange(5, end as int) =~= payload);
    assert(bytes.skip(end as int) =~= rest);
}

/// A message that is only a header is heard before what follows it.
proof fn hears_bare_message_first(state: StateModel, mine: Seq<bool>, id: MessageId, rest: Seq<u8>)
    requires
        ({
            let header = Message { length: 1, message_id: Some(id) };
            &&& connection::payload_length(header) == 0
            &&& connection::makes_sense(state, header, Seq::empty())
            &&& !breaks_off(state, header)
        }),
    ensures
        hears(state, mine, writing::bare(id) + rest) == hears(
            connection::state_after(
                state,
                mine,
                Message { length: 1, message_id: Some(id) },
                Seq::empty(),
            ),
            mine,
            rest,
        ),
{
    let header = Message { length: 1, message_id: Some(id) };
    hears_message_first(state, mine, header, Seq::empty(), rest);
    assert(writing::bare(id) + Seq::<u8>::empty() =~= writing::bare(id));
}

/// What a client sends first is understood by a peer that knew of no piece. It makes the peer know
/// that it is not choked. A peer without the fast extension hears no message of it, and then knows
/// exactly the client's pieces. So does one with it where the client has all pieces or none; where the
/// client has some, it hears only that it is not choked.
pub proof fn introductions_are_heard(
    mine: Seq<bool>,
    raw: Seq<u8>,
    listener: StateModel,
    others: Seq<bool>,
)
    requires
        listener.theirs == Seq::new(mine.len(), |i: int| false),
        raw.len() == (mine.len() + 7) / 8,
        forall|i: int| 0 <= i < mine.len() ==> #[trigger] mine[i] == bits::bit_at(raw, i),
        writing::bits_fit(mine.len() as int),
        8 * raw.len() <= bits::max_bits(),
    ensures
        ({
            let sent = writing::greeting(listener.fast, mine, raw);
            let heard = hears(listener, others, sent);
            let all = forall|i: int| 0 <= i < mine.len() ==> #[trigger] mine[i];
            let none = forall|i: int| 0 <= i < mine.len() ==> !#[trigger] mine[i];
            &&& heard is Some
            &&& !heard->0.peer_choking
            &&& heard->0.peer_interested == listener.peer_interested
            &&& heard->0.am_choking == listener.am_choking
            &&& if !listener.fast || all || none {
                heard->0.theirs == mine
            } else {
                &&& sent == seq![0u8, 0u8, 0u8, 1u8, 1u8]
                &&& heard->0.theirs == listener.theirs
            }
        }),
{
    let unchoke = writing::bare(MessageId::UnChoke);
    let sent = writing::greeting(listener.fast, mine, raw);
    let nothing = Seq::<u8>::empty();
    assert(unchoke + nothing =~= unchoke);
    writing::bare_messages_are_spelled_out(MessageId::UnChoke);
    assert(writing::introduction(listener.fast, mine, raw).len() == 0 ==> sent =~= unchoke);
    if listener.fast {
        if connection::complete(mine) {
            let header = Message { length: 1, message_id: Some(MessageId::HaveAll) };
            let after = connection::state_after(listener, others, header, nothing);
            hears_bare_message_first(listener, others, MessageId::HaveAll, unchoke);
            hears_bare_message_first(after, others, MessageId::UnChoke, nothing);
            assert(after.theirs =~= mine);
        } else if !writing::has_some(mine) {
            let header = Message { length: 1, message_id: Some(MessageId::HaveNone) };
            let after = connection::state_after(listener, others, header, nothing);
            hears_bare_message_first(listener, others, MessageId::HaveNone, unchoke);
            hears_bare_message_first(after, others, MessageId::UnChoke, nothing);
            assert(after.theirs =~= mine);
        } else {
            hears_bare_message_first(listener, others, MessageId::UnChoke, nothing);
            let i = choose|i: int| 0 <= i < mine.len() && mine[i];
            assert(mine[i]);
        }
    } else if writing::has_some(mine) {
        let header = Message {
            length: (1 + raw.len()) as u32,
            message_id: Some(MessageId::BitField),
        };
        let after = connection::state_after(listener, others, header, raw);
        writing::introductions_are_understood(raw, mine, listener, others);
        hears_message_first(listener, others, header, raw, unchoke);
        hears_bare_message_first(after, others, MessageId::UnChoke, nothing);
    } else {
        hears_bare_message_first(listener, others, MessageId::UnChoke, nothing);
        assert(listener.theirs =~= mine);
    }
}

/// What a client sends first to a peer without the fast extension is at most a set of pieces and that
/// it stops choking; to one with it, at most that it has all pieces or none, and that it stops
/// choking.
pub proof fn introductions_keep_to_the_protocol(fast: bool, mine: Seq<bool>, raw: Seq<u8>)
    ensures
        ({
            let sent = writing::greeting(fast, mine, raw);
            let all = forall|i: int| 0 <= i < mine.len() ==> #[trigger] mine[i];
            let none = forall|i: int| 0 <= i < mine.len() ==> !#[trigger] mine[i];
            &&& fast && all ==> sent == seq![0u8, 0u8, 0u8, 1u8, 14u8, 0u8, 0u8, 0u8, 1u8, 1u8]
            &&& fast && none && !all ==> sent == seq![
                0u8,
                0u8,
                0u8,
                1u8,
                15u8,
                0u8,
                0u8,
                0u8,
                1u8,
                1u8,
            ]
            &&& !fast && !none ==> {
                &&& sent.len() == 10 + raw.len()
                &&& raw.len() < u32::MAX ==> wire::value(sent.take(4)) == 1 + raw.len()
                &&& sent[4] == 5
                &&& sent.subrange(5, (5 + raw.len()) as int) == raw
                &&& sent.skip((5 + raw.len()) as int) == seq![0u8, 0u8, 0u8, 1u8, 1u8]
            }
            &&& fast && !all && !none || !fast && none ==> sent == seq![0u8, 0u8, 0u8, 1u8, 1u8]
        }),
{
    let sent = writing::greeting(fast, mine, raw);
    writing::bare_messages_are_spelled_out(MessageId::UnChoke);
    writing::bare_messages_are_spelled_out(MessageId::HaveAll);
    writing::bare_messages_are_spelled_out(MessageId::HaveNone);
    let unchoke = writing::bare(MessageId::UnChoke);
    if writing::has_some(mine) {
        let i = choose|i: int| 0 <= i < mine.len() && mine[i];
        assert(mine[i]);
        if !fast {
            let length = (1 + raw.len()) as u32;
            let two = seq![0u8, 0u8];
            let four = two + two;
            wire::integers_are_spelled_out(0, length, 0, two, four, four + four);
            assert(sent.take(4) =~= wire::be32(length));
            assert(sent.subrange(5, (5 + raw.len()) as int) =~= raw);
            assert(sent.skip((5 + raw.len()) as int) =~= unchoke);
        }
    }
    if !connection::complete(mine) {
        let i = choose|i: int| 0 <= i < mine.len() && !mine[i];
        assert(!mine[i]);
    }
    if fast && connection::complete(mine) {
        assert(sent =~= seq![0u8, 0u8, 0u8, 1u8, 14u8, 0u8, 0u8, 0u8, 1u8, 1u8]);
    } else if fast && !writing::has_some(mine) {
        assert(sent =~= seq![0u8, 0u8, 0u8, 1u8, 15u8, 0u8, 0u8, 0u8, 1u8, 1u8]);
    } else if fast || !writing::has_some(mine) {
        assert(sent =~= unchoke);
    }
}

/// A piece that a client has completed is one that its peer then knows of, whatever the client still
/// wants, and the peer learns of no other piece.
pub proof fn completed_pieces_are_heard_of(
    tracker: TrackerModel,
    mine: Seq<bool>,
    theirs: Seq<bool>,
    metadata: Metadata,
    piece: u32,
    listener: StateModel,
    others: Seq<bool>,
)
    requires
        piece < listener.theirs.len(),
    ensures
        ({
            let update = Ok::<ThreadUpdate, RecvError>(ThreadUpdate::Completed(piece));
            let sent = writing::reaction_to(tracker, mine, theirs, metadata, update).bytes;
            let heard = hears(listener, others, sent);
            &&& heard is Some
            &&& heard->0.theirs == listener.theirs.update(piece as int, true)
            &&& heard->0.peer_choking == listener.peer_choking
        }),
{
    let header = Message { length: 5, message_id: Some(MessageId::Have) };
    let sent = writing::announces(piece);
    let nothing = Seq::<u8>::empty();
    writing::announcements_are_understood(piece, listener, others);
    assert(sent.skip(5) =~= wire::be32(piece));
    hears_message_first(listener, others, header, wire::be32(piece), nothing);
    assert(sent + nothing =~= sent);
}

/// A change of interest is told to the peer once: a peer that knew whether the client was interested
/// knows it afterwards too, and where nothing has changed nothing is sent.
pub proof fn changes_of_interest_are_heard(
    told: bool,
    wanted: bool,
    listener: StateModel,
    others: Seq<bool>,
)
    requires
        listener.peer_interested == told,
    ensures
        ({
            let sent = peer::interest_bytes(told, wanted);
            let heard = hears(listener, others, sent);
            &&& heard == Some(StateModel { peer_interested: wanted, ..listener })
            &&& told == wanted ==> sent.len() == 0
            &&& !told && wanted ==> sent == seq![0u8, 0u8, 0u8, 1u8, 2u8]
            &&& told && !wanted ==> sent == seq![0u8, 0u8, 0u8, 1u8, 3u8]
        }),
{
    let nothing = Seq::<u8>::empty();
    let id = if wanted {
        MessageId::Interested
    } else {
        MessageId::NotInterested
    };
    writing::bare_messages_are_spelled_out(id);
    if told != wanted {
        hears_bare_message_first(listener, others, id, nothing);
        assert(writing::bare(id) + nothing =~= writing::bare(id));
    }
}

} // verus!
