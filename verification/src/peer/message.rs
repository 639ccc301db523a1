//! The headers of the messages between peers.
use crate::wire;
use vstd::prelude::*;

verus! {

/// What a message says.
#[derive(Debug, Copy, Clone, PartialEq, Eq, Structural)]
pub enum MessageId {
    /// The peer is choking the client.
    Choke,
    /// The peer is not choking the client any more.
    UnChoke,
    /// The peer wants something that the client has.
    Interested,
    /// The peer wants nothing that the client has.
    NotInterested,
    /// The peer has the piece whose index follows.
    Have,
    /// The peer has the pieces whose bits follow. The high bit of the first byte stands for piece 0,
    /// and spare bits at the end are zero.
    BitField,
    /// The peer asks for a block: the index of a piece, an offset in it and a length follow.
    Request,
    /// A block: the index of a piece, an offset in it and the data follow.
    Piece,
    /// The peer takes a request back: what the request said follows.
    Cancel,
    /// The port of the peer's DHT node follows.
    Port,
    /// Fast extension: the peer suggests the piece whose index follows.
    SuggestPiece,
    /// Fast extension: the peer has every piece.
    HaveAll,
    /// Fast extension: the peer has no piece.
    HaveNone,
    /// Fast extension: the peer will not answer the request that follows.
    RejectRequest,
    /// Fast extension: the peer will send the piece whose index follows even while choking.
    AllowedFast,
}

/// The byte that stands for a message on the wire.
pub open spec fn byte_of(id: MessageId) -> u8 {
    match id {
        MessageId::Choke => 0,
        MessageId::UnChoke => 1,
        MessageId::Interested => 2,
        MessageId::NotInterested => 3,
        MessageId::Have => 4,
        MessageId::BitField => 5,
        MessageId::Request => 6,
        MessageId::Piece => 7,
        MessageId::Cancel => 8,
        MessageId::Port => 9,
        MessageId::SuggestPiece => 0x0D,
        MessageId::HaveAll => 0x0E,
        MessageId::HaveNone => 0x0F,
        MessageId::RejectRequest => 0x10,
        MessageId::AllowedFast => 0x11,
    }
}

/// The message that a byte stands for, if any.
pub open spec fn id_of(byte: u8) -> Option<MessageId> {
    if byte == 0 {
        Some(MessageId::Choke)
    } else if byte == 1 {
        Some(MessageId::UnChoke)
    } else if byte == 2 {
        Some(MessageId::Interested)
    } else if byte == 3 {
        Some(MessageId::NotInterested)
    } else if byte == 4 {
        Some(MessageId::Have)
    } else if byte == 5 {
        Some(MessageId::BitField)
    } else if byte == 6 {
        Some(MessageId::Request)
    } else if byte == 7 {
        Some(MessageId::Piece)
    } else if byte == 8 {
        Some(MessageId::Cancel)
    } else if byte == 9 {
        Some(MessageId::Port)
    } else if byte == 0x0D {
        Some(MessageId::SuggestPiece)
    } else if byte == 0x0E {
        Some(MessageId::HaveAll)
    } else if byte == 0x0F {
        Some(MessageId::HaveNone)
    } else if byte == 0x10 {
        Some(MessageId::RejectRequest)
    } else if byte == 0x11 {
        Some(MessageId::AllowedFast)
    } else {
        None
    }
}

/// A byte that stands for no message.
#[derive(Debug, Copy, Clone, PartialEq, Eq, Structural)]
pub struct InvalidMessageId(pub u8);

impl MessageId {
    /// The byte that stands for the message on the wire.
    pub fn to_byte(self) -> (byte: u8)
        ensures
            byte == byte_of(self),
    {
        match self {
            MessageId::Choke => 0,
            MessageId::UnChoke => 1,
            MessageId::Interested => 2,
            MessageId::NotInterested => 3,
            MessageId::Have => 4,
            MessageId::BitField => 5,
            MessageId::Request => 6,
            MessageId::Piece => 7,
            MessageId::Cancel => 8,
            MessageId::Port => 9,
            MessageId::SuggestPiece => 0x0D,
            MessageId::HaveAll => 0x0E,
            MessageId::HaveNone => 0x0F,
            MessageId::RejectRequest => 0x10,
            MessageId::AllowedFast => 0x11,
        }
    }
}

impl TryFrom<u8> for MessageId {
    type Error = InvalidMessageId;

    fn try_from(val: u8) -> (id: Result<Self, InvalidMessageId>) {
        match val {
            0 => Ok(MessageId::Choke),
            1 => Ok(MessageId::UnChoke),
            2 => Ok(MessageId::Interested),
            3 => Ok(MessageId::NotInterested),
            4 => Ok(MessageId::Have),
            5 => Ok(MessageId::BitField),
            6 => Ok(MessageId::Request),
            7 => Ok(MessageId::Piece),
            8 => Ok(MessageId::Cancel),
            9 => Ok(MessageId::Port),
            0x0D => Ok(MessageId::SuggestPiece),
            0x0E => Ok(MessageId::HaveAll),
            0x0F => Ok(MessageId::HaveNone),
            0x10 => Ok(MessageId::RejectRequest),
            0x11 => Ok(MessageId::AllowedFast),
            _ => Err(InvalidMessageId(val)),
        }
    }
}

impl vstd::std_specs::convert::TryFromSpecImpl<u8> for MessageId {
    open spec fn obeys_try_from_spec() -> bool {
        true
    }

    open spec fn try_from_spec(val: u8) -> Result<Self, InvalidMessageId> {
        match id_of(val) {
            Some(id) => Ok(id),
            None => Err(InvalidMessageId(val)),
        }
    }
}

/// The header of a message.
#[derive(Debug, Copy, Clone, PartialEq, Eq, Structural)]
pub struct Message {
    /// The number of bytes that follow the length.
    pub length: u32,
    /// What the message says. Only a message that keeps the connection alive says nothing.
    pub message_id: Option<MessageId>,
}

/// The bytes of a header.
pub open spec fn header_bytes(message: Message) -> Seq<u8> {
    wire::be32(message.length) + match message.message_id {
        Some(id) => seq![byte_of(id)],
        None => Seq::empty(),
    }
}

impl Default for Message {
    /// The message that keeps a connection alive.
    fn default() -> (message: Self)
        ensures
            message == (Message { length: 0, message_id: None }),
    {
        Message { length: 0, message_id: None }
    }
}

impl Message {
    /// The bytes of the header.
    pub fn as_bytes(&self) -> (bytes: Vec<u8>)
        ensures
            bytes@ == header_bytes(*self),
    {
        let length = wire::u32_to_be(self.length);
        let mut out: Vec<u8> = vstd::slice::slice_to_vec(length.as_slice());
        if let Some(message_id) = self.message_id {
            out.push(message_id.to_byte());
        }
        assert(out@ =~= header_bytes(*self));
        out
    }

    /// The header of a message that takes a request back.
    pub fn cancel() -> (message: Self)
        ensures
            message == (Message { length: 13, message_id: Some(MessageId::Cancel) }),
    {
        Message { length: 13, message_id: Some(MessageId::Cancel) }
    }

    /// The header of a message that announces a piece.
    pub fn have() -> (message: Self)
        ensures
            message == (Message { length: 5, message_id: Some(MessageId::Have) }),
    {
        Message { length: 5, message_id: Some(MessageId::Have) }
    }

    /// The message that says that nothing is wanted.
    pub fn not_interested() -> (message: Self)
        ensures
            message == (Message { length: 1, message_id: Some(MessageId::NotInterested) }),
    {
        Message { length: 1, message_id: Some(MessageId::NotInterested) }
    }

    /// The message that says that something is wanted.
    pub fn interested() -> (message: Self)
        ensures
            message == (Message { length: 1, message_id: Some(MessageId::Interested) }),
    {
        Message { length: 1, message_id: Some(MessageId::Interested) }
    }

    /// The header of a message that asks for a block.
    pub fn request() -> (message: Self)
        ensures
            message == (Message { length: 13, message_id: Some(MessageId::Request) }),
    {
        Message { length: 13, message_id: Some(MessageId::Request) }
    }

    /// The message that ends choking.
    pub fn unchoke() -> (message: Self)
        ensures
            message == (Message { length: 1, message_id: Some(MessageId::UnChoke) }),
    {
        Message { length: 1, message_id: Some(MessageId::UnChoke) }
    }

    /// The message that begins choking.
    pub fn choke() -> (message: Self)
        ensures
            message == (Message { length: 1, message_id: Some(MessageId::Choke) }),
    {
        Message { length: 1, message_id: Some(MessageId::Choke) }
    }

    /// The message that says that no piece is there.
    pub fn have_none() -> (message: Self)
        ensures
            message == (Message { length: 1, message_id: Some(MessageId::HaveNone) }),
    {
        Message { length: 1, message_id: Some(MessageId::HaveNone) }
    }

    /// The message that says that every piece is there.
    pub fn have_all() -> (message: Self)
        ensures
            message == (Message { length: 1, message_id: Some(MessageId::HaveAll) }),
    {
        Message { length: 1, message_id: Some(MessageId::HaveAll) }
    }
}

/// What the four bytes of a length announce.
#[derive(Debug, Copy, Clone, PartialEq, Eq, Structural)]
pub enum Announced {
    /// A message that only keeps the connection alive.
    KeepAlive,
    /// A message of this many bytes, the first of which tells what it says.
    Body(u32),
}

/// What the four bytes of a length say.
pub open spec fn announced_by(length_bytes: Seq<u8>) -> Announced {
    if wire::from_be32(length_bytes) == 0 {
        Announced::KeepAlive
    } else {
        Announced::Body(wire::from_be32(length_bytes))
    }
}

/// The header that a length and a byte make up.
pub open spec fn header_of(length: u32, byte: u8) -> Result<Message, InvalidMessageId> {
    match id_of(byte) {
        Some(id) => Ok(Message { length, message_id: Some(id) }),
        None => Err(InvalidMessageId(byte)),
    }
}

/// What the first five bytes of a message say.
pub open spec fn message_in(header: Seq<u8>) -> Result<Option<Message>, InvalidMessageId> {
    match announced_by(header.subrange(0, 4)) {
        Announced::KeepAlive => Ok(None),
        Announced::Body(length) => match header_of(length, header[4]) {
            Ok(message) => Ok(Some(message)),
            Err(invalid) => Err(invalid),
        },
    }
}

/// Reads the length of a message.
pub fn read_length(length_bytes: [u8; 4]) -> (announced: Announced)
    ensures
        announced == announced_by(length_bytes@),
{
    let length: u32 = wire::u32_at(length_bytes.as_slice(), 0);
    assert(length_bytes@.subrange(0, 4) =~= length_bytes@);
    if length == 0 {
        Announced::KeepAlive
    } else {
        Announced::Body(length)
    }
}

/// Reads what a message of a known length says.
pub fn read_id(length: u32, byte: u8) -> (message: Result<Message, InvalidMessageId>)
    ensures
        message == header_of(length, byte),
{
    match MessageId::try_from(byte) {
        Ok(id) => Ok(Message { length, message_id: Some(id) }),
        Err(e) => Err(e),
    }
}

/// Reads a header: four bytes of length and, where the length is not zero, one more that tells what
/// the message says. A message that only keeps the connection alive gives nothing.
pub fn read_message(header: &[u8]) -> (message: Result<Option<Message>, InvalidMessageId>)
    requires
        header@.len() >= 5,
    ensures
        message == message_in(header@),
{
    let length_bytes = [header[0], header[1], header[2], header[3]];
    assert(length_bytes@ =~= header@.subrange(0, 4));
    match read_length(length_bytes) {
        Announced::KeepAlive => Ok(None),
        Announced::Body(length) => match read_id(length, header[4]) {
            Ok(message) => Ok(Some(message)),
            Err(e) => Err(e),
        },
    }
}

/// A byte stands for a message exactly when the message is written as that byte.
pub proof fn ids_round_trip(id: MessageId, byte: u8)
    ensures
        id_of(byte_of(id)) == Some(id),
        id_of(byte) == Some(id) <==> byte_of(id) == byte,
{
}

/// A header that is written and read back is the same header.
pub proof fn headers_round_trip(message: Message)
    requires
        message.length > 0,
        message.message_id is Some,
    ensures
        header_bytes(message).len() == 5,
        wire::from_be32(header_bytes(message).subrange(0, 4)) == message.length,
        id_of(header_bytes(message)[4]) == message.message_id,
{
    let bytes = header_bytes(message);
    wire::be32_round_trip(message.length, wire::be32(message.length));
    assert(bytes.subrange(0, 4) =~= wire::be32(message.length));
    ids_round_trip(message.message_id->0, 0);
}

/// The bytes that stand for messages are those of the protocol: from 0 to 9 the plain messages, and
/// from 13 to 17 those of the fast extension, each in its order.
pub proof fn messages_are_numbered(id: MessageId)
    ensures
        byte_of(id) == (match id {
            MessageId::Choke => 0int,
            MessageId::UnChoke => 1,
            MessageId::Interested => 2,
            MessageId::NotInterested => 3,
            MessageId::Have => 4,
            MessageId::BitField => 5,
            MessageId::Request => 6,
            MessageId::Piece => 7,
            MessageId::Cancel => 8,
            MessageId::Port => 9,
            MessageId::SuggestPiece => 13,
            MessageId::HaveAll => 14,
            MessageId::HaveNone => 15,
            MessageId::RejectRequest => 16,
            MessageId::AllowedFast => 17,
        }),
        forall|byte: u8|
            #[trigger] id_of(byte) is Some <==> byte <= 9 || 13 <= byte <= 17,
{
}

/// A header is written as four bytes that spell its length and the byte that stands for what it
/// says. Whatever follows, the header that is read from them is the same one. Where the first four
/// bytes are zero nothing is said, and a byte that stands for nothing is handed back.
pub proof fn headers_are_read_back(message: Message, rest: Seq<u8>, other: Seq<u8>)
    requires
        message.length > 0,
        message.message_id is Some,
        other.len() >= 5,
    ensures
        ({
            let bytes = header_bytes(message);
            &&& bytes.len() == 5
            &&& wire::value(bytes.take(4)) == message.length
            &&& id_of(bytes[4]) == message.message_id
            &&& message_in(bytes + rest) == Ok::<Option<Message>, InvalidMessageId>(Some(message))
            &&& announced_by(bytes.take(4)) == Announced::Body(message.length)
            &&& header_of(message.length, bytes[4]) == Ok::<Message, InvalidMessageId>(message)
        }),
        message_in(other) == Ok::<Option<Message>, InvalidMessageId>(None) <==> wire::value(
            other.take(4),
        ) == 0,
        announced_by(other.take(4)) == Announced::KeepAlive <==> wire::value(other.take(4)) == 0,
        forall|invalid: InvalidMessageId|
            message_in(other) == Err::<Option<Message>, InvalidMessageId>(invalid) <==> invalid.0
                == other[4] && id_of(other[4]) is None && wire::value(other.take(4)) != 0,
{
    let bytes = header_bytes(message);
    headers_round_trip(message);
    let four = bytes.take(4);
    assert(four =~= bytes.subrange(0, 4));
    assert((bytes + rest).subrange(0, 4) =~= four);
    assert((bytes + rest)[4] == bytes[4]);
    wire::integers_are_spelled_out(0, 0, 0, four.take(2), four, four + four);
    let first = other.subrange(0, 4);
    assert(first =~= other.take(4));
    wire::integers_are_spelled_out(0, 0, 0, first.take(2), first, first + first);
}

} // verus!
