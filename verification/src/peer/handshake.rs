//! The first message of a connection.
use crate::text;
use crate::wire;
use vstd::prelude::*;
use vstd::utf8;

verus! {

/// The fields of a handshake.
#[verifier::ext_equal]
pub struct HandshakeModel {
    /// The length of the name of the protocol, as one byte.
    pub pstrlen: u8,
    /// The name of the protocol.
    pub pstr: Seq<char>,
    /// Eight bytes in which each bit can change the protocol.
    pub reserved: Seq<u8>,
    /// The hash of the torrent.
    pub info_hash: Seq<u8>,
    /// The name of the client.
    pub peer_id: Seq<u8>,
}

/// The text that `String::from_utf8_lossy` makes of a byte string.
pub uninterp spec fn lossy_text(bytes: Seq<u8>) -> Seq<char>;

/// `String::from_utf8_lossy`: the text of a byte string. Bytes that are valid UTF-8 are decoded.
/// What stands for bytes that are not is only given a name.
#[verifier::external_body]
fn from_utf8_lossy(bytes: &[u8]) -> (text: String)
    ensures
        text@ == lossy_text(bytes@),
        utf8::valid_utf8(bytes@) ==> text@ == utf8::decode_utf8(bytes@),
{
    String::from_utf8_lossy(bytes).into_owned()
}

impl HandshakeModel {
    /// The bytes of a handshake.
    pub open spec fn bytes(self) -> Seq<u8> {
        seq![self.pstrlen] + utf8::encode_utf8(self.pstr) + self.reserved + self.info_hash
            + self.peer_id
    }

    /// The length byte tells the truth, and the other fields have their lengths.
    pub open spec fn wf(self) -> bool {
        &&& self.pstrlen == utf8::encode_utf8(self.pstr).len()
        &&& self.reserved.len() == 8
        &&& self.info_hash.len() == 20
        &&& self.peer_id.len() == 20
    }

    /// The handshake that a byte string of the right length holds.
    pub open spec fn read_from(self, bytes: Seq<u8>) -> bool {
        let n = bytes[0] as int;
        let name = bytes.subrange(1, 1 + n);
        &&& self.pstrlen == bytes[0]
        &&& self.pstr == lossy_text(name)
        &&& utf8::valid_utf8(name) ==> self.pstr == utf8::decode_utf8(name)
        &&& self.reserved == bytes.subrange(n + 1, n + 9)
        &&& self.info_hash == bytes.subrange(n + 9, n + 29)
        &&& self.peer_id == bytes.subrange(n + 29, n + 49)
    }
}

/// A byte string of the length that its first byte announces.
pub open spec fn has_handshake_length(bytes: Seq<u8>) -> bool {
    bytes.len() > 0 && bytes.len() == 49 + bytes[0]
}

/// What is said of a byte string that is not as long as its first byte announces.
pub open spec fn length_complaint(bytes: Seq<u8>) -> Seq<char> {
    if bytes.len() == 0 {
        "Input cannot be empty"@
    } else {
        "pstrlen/pstr is incorrect: "@ + text::decimal(bytes[0] as nat)
    }
}

/// Writes the fields of a handshake one after the other.
fn frame(
    pstrlen: u8,
    pstr: &str,
    reserved: &[u8; 8],
    info_hash: &[u8; 20],
    peer_id: &[u8; 20],
) -> (bytes: Vec<u8>)
    ensures
        bytes@ == (HandshakeModel {
            pstrlen,
            pstr: pstr@,
            reserved: reserved@,
            info_hash: info_hash@,
            peer_id: peer_id@,
        }).bytes(),
{
    let mut bytes: Vec<u8> = Vec::new();
    bytes.push(pstrlen);
    wire::append(&mut bytes, pstr.as_bytes());
    wire::append(&mut bytes, reserved.as_slice());
    wire::append(&mut bytes, info_hash.as_slice());
    wire::append(&mut bytes, peer_id.as_slice());
    assert(seq![pstrlen] =~= Seq::empty().push(pstrlen));
    bytes
}

/// The fields of a handshake that a byte string holds.
struct Fields {
    pstrlen: u8,
    pstr: String,
    reserved: [u8; 8],
    info_hash: [u8; 20],
    peer_id: [u8; 20],
}

/// Splits a byte string into the fields of a handshake.
fn unframe(value: &[u8]) -> (fields: Result<Fields, String>)
    ensures
        match fields {
            Ok(fields) => has_handshake_length(value@) && (HandshakeModel {
                pstrlen: fields.pstrlen,
                pstr: fields.pstr@,
                reserved: fields.reserved@,
                info_hash: fields.info_hash@,
                peer_id: fields.peer_id@,
            }).read_from(value@),
            Err(message) => !has_handshake_length(value@) && message@ == length_complaint(value@),
        },
{
    if value.is_empty() {
        return Err("Input cannot be empty".to_owned());
    }
    let pstrlen: u8 = value[0];
    let n: usize = pstrlen as usize;
    if value.len() != 49 + n {
        let mut message = "pstrlen/pstr is incorrect: ".to_owned();
        text::push_decimal(&mut message, pstrlen as u64);
        return Err(message);
    }
    let pstr = from_utf8_lossy(vstd::slice::slice_subrange(value, 1, 1 + n));
    let reserved = wire::eight_at(value, n + 1);
    let info_hash = wire::twenty_at(value, n + 9);
    let peer_id = wire::twenty_at(value, n + 29);
    Ok(Fields { pstrlen, pstr, reserved, info_hash, peer_id })
}

/// The bytes in which a peer tells which extensions it supports.
#[derive(Debug, Copy, Clone)]
pub struct Reserved(pub [u8; 8]);

impl Reserved {
    /// Whether the peer supports the fast extension: the third lowest bit of the last byte.
    pub fn supports_fast(&self) -> (fast: bool)
        ensures
            fast == supports_fast(self.0@),
    {
        self.0[7] & 0x04 != 0
    }
}

/// The bit of the fast extension is set.
pub open spec fn supports_fast(reserved: Seq<u8>) -> bool {
    reserved[7] & 0x04 != 0
}

/// A handshake, the first message that a client sends. It is 49 bytes longer than the name of the
/// protocol.
#[derive(Debug, Clone)]
pub struct Handshake {
    /// The length of the name of the protocol, as one byte.
    pub pstrlen: u8,
    /// The name of the protocol.
    pub pstr: String,
    /// Eight bytes in which each bit can change the protocol.
    pub reserved: [u8; 8],
    /// The hash of the torrent, as sent to trackers.
    pub info_hash: [u8; 20],
    /// The name of the client.
    pub peer_id: [u8; 20],
}

impl View for Handshake {
    type V = HandshakeModel;

    open spec fn view(&self) -> HandshakeModel {
        HandshakeModel {
            pstrlen: self.pstrlen,
            pstr: self.pstr@,
            reserved: self.reserved@,
            info_hash: self.info_hash@,
            peer_id: self.peer_id@,
        }
    }
}

/// The handshake of this version of the protocol.
pub open spec fn v1_model(info_hash: Seq<u8>, peer_id: Seq<u8>) -> HandshakeModel {
    HandshakeModel {
        pstrlen: 19,
        pstr: "BitTorrent protocol"@,
        reserved: Seq::new(8, |i: int| 0u8),
        info_hash,
        peer_id,
    }
}

impl Handshake {
    /// The bytes of the handshake.
    pub fn to_bytes(&self) -> (bytes: Vec<u8>)
        ensures
            bytes@ == self@.bytes(),
    {
        frame(self.pstrlen, self.pstr.as_str(), &self.reserved, &self.info_hash, &self.peer_id)
    }

    /// The handshake that a byte string holds.
    pub fn from_bytes(value: &[u8]) -> (handshake: Result<Self, String>)
        ensures
            match handshake {
                Ok(handshake) => has_handshake_length(value@) && handshake@.read_from(value@),
                Err(message) => !has_handshake_length(value@) && message@ == length_complaint(
                    value@,
                ),
            },
    {
        match unframe(value) {
            Ok(fields) => Ok(
                Handshake {
                    pstrlen: fields.pstrlen,
                    pstr: fields.pstr,
                    reserved: fields.reserved,
                    info_hash: fields.info_hash,
                    peer_id: fields.peer_id,
                },
            ),
            Err(message) => Err(message),
        }
    }

    /// The handshake of this version of the protocol.
    pub fn v1(info_hash: [u8; 20], peer_id: [u8; 20]) -> (handshake: Self)
        ensures
            handshake@ == v1_model(info_hash@, peer_id@),
    {
        let handshake = Handshake {
            info_hash,
            peer_id,
            pstrlen: 19,
            pstr: "BitTorrent protocol".to_owned(),
            reserved: [0u8; 8],
        };
        assert(handshake@ =~= v1_model(info_hash@, peer_id@));
        handshake
    }
}

/// The reply, which has the length of a handshake, names the torrent with the given hash.
pub open spec fn names_torrent(reply: Seq<u8>, info_hash: Seq<u8>) -> bool {
    reply.subrange(reply[0] + 9, reply[0] + 29) == info_hash
}

/// Decides on the reply to a handshake: the peer passes when it names the same torrent.
pub fn try_handshake(handshake: &Handshake, reply: &[u8]) -> (passed: Result<bool, String>)
    ensures
        match passed {
            Ok(passed) => has_handshake_length(reply@) && passed == names_torrent(
                reply@,
                handshake@.info_hash,
            ),
            Err(message) => !has_handshake_length(reply@) && message@ == length_complaint(reply@),
        },
{
    match Handshake::from_bytes(reply) {
        Ok(peer_response) => Ok(wire::same_bytes(
            peer_response.info_hash.as_slice(),
            handshake.info_hash.as_slice(),
        )),
        Err(message) => Err(message),
    }
}

/// The same message, for a session that keeps no list of extensions.
#[derive(Debug, Clone)]
pub struct PeerHandshake {
    /// The length of the name of the protocol, as one byte.
    pub pstrlen: u8,
    /// The name of the protocol.
    pub pstr: String,
    /// Eight bytes in which each bit can change the protocol.
    pub reserved: [u8; 8],
    /// The hash of the torrent, as sent to trackers.
    pub info_hash: [u8; 20],
    /// The name of the client.
    pub peer_id: [u8; 20],
}

impl View for PeerHandshake {
    type V = HandshakeModel;

    open spec fn view(&self) -> HandshakeModel {
        HandshakeModel {
            pstrlen: self.pstrlen,
            pstr: self.pstr@,
            reserved: self.reserved@,
            info_hash: self.info_hash@,
            peer_id: self.peer_id@,
        }
    }
}

impl PeerHandshake {
    /// The bytes of the handshake.
    pub fn to_bytes(&self) -> (bytes: Vec<u8>)
        ensures
            bytes@ == self@.bytes(),
    {
        frame(self.pstrlen, self.pstr.as_str(), &self.reserved, &self.info_hash, &self.peer_id)
    }

    /// The handshake that a byte string holds.
    pub fn from_bytes(value: &[u8]) -> (handshake: Result<Self, String>)
        ensures
            match handshake {
                Ok(handshake) => has_handshake_length(value@) && handshake@.read_from(value@),
                Err(message) => !has_handshake_length(value@) && message@ == length_complaint(
                    value@,
                ),
            },
    {
        match unframe(value) {
            Ok(fields) => Ok(
                PeerHandshake {
                    pstrlen: fields.pstrlen,
                    pstr: fields.pstr,
                    reserved: fields.reserved,
                    info_hash: fields.info_hash,
                    peer_id: fields.peer_id,
                },
            ),
            Err(message) => Err(message),
        }
    }

    /// The handshake of this version of the protocol.
    pub fn v1(info_hash: [u8; 20], peer_id: [u8; 20]) -> (handshake: Self)
        ensures
            handshake@ == v1_model(info_hash@, peer_id@),
    {
        let handshake = PeerHandshake {
            info_hash,
            peer_id,
            pstrlen: 19,
            pstr: "BitTorrent protocol".to_owned(),
            reserved: [0u8; 8],
        };
        assert(handshake@ =~= v1_model(info_hash@, peer_id@));
        handshake
    }

    /// Decides on the reply to the handshake: the peer passes when it names the same torrent.
    pub fn try_handshake(&self, reply: &[u8]) -> (passed: Result<bool, String>)
        ensures
            match passed {
                Ok(passed) => has_handshake_length(reply@) && passed == names_torrent(
                reply@,
                self@.info_hash,
            ),
                Err(message) => !has_handshake_length(reply@) && message@ == length_complaint(
                    reply@,
                ),
            },
    {
        match PeerHandshake::from_bytes(reply) {
            Ok(peer_response) => Ok(wire::same_bytes(
                peer_response.info_hash.as_slice(),
                self.info_hash.as_slice(),
            )),
            Err(message) => Err(message),
        }
    }
}

/// A handshake that is written and read back is the same handshake.
pub proof fn handshakes_round_trip(sent: HandshakeModel, received: HandshakeModel)
    requires
        sent.wf(),
        received.read_from(sent.bytes()),
    ensures
        has_handshake_length(sent.bytes()),
        received == sent,
{
    let bytes = sent.bytes();
    let name = utf8::encode_utf8(sent.pstr);
    let n = name.len() as int;
    assert(bytes[0] == sent.pstrlen);
    assert(bytes.subrange(1, 1 + n) =~= name);
    assert(bytes.subrange(n + 1, n + 9) =~= sent.reserved);
    assert(bytes.subrange(n + 9, n + 29) =~= sent.info_hash);
    assert(bytes.subrange(n + 29, n + 49) =~= sent.peer_id);
    utf8::encode_utf8_valid_utf8(sent.pstr);
    utf8::encode_utf8_decode_utf8(sent.pstr);
    assert(received =~= sent);
}

/// A handshake is 49 bytes longer than the name of its protocol.
pub proof fn handshake_length(handshake: HandshakeModel)
    requires
        handshake.wf(),
    ensures
        handshake.bytes().len() == 49 + utf8::encode_utf8(handshake.pstr).len(),
{
}

/// The handshake of this version is well formed and 68 bytes long.
pub proof fn v1_is_68_bytes(info_hash: Seq<u8>, peer_id: Seq<u8>)
    requires
        info_hash.len() == 20,
        peer_id.len() == 20,
    ensures
        v1_model(info_hash, peer_id).wf(),
        v1_model(info_hash, peer_id).bytes().len() == 68,
{
    reveal_strlit("BitTorrent protocol");
    utf8::is_ascii_chars_encode_utf8("BitTorrent protocol"@);
}

/// Two clients pass each other's handshake exactly when they name the same torrent.
pub proof fn clients_of_one_torrent_pass(
    ours: Seq<u8>,
    theirs: Seq<u8>,
    peer_id: Seq<u8>,
)
    requires
        ours.len() == 20,
        theirs.len() == 20,
        peer_id.len() == 20,
    ensures
        ({
            let reply = v1_model(theirs, peer_id).bytes();
            &&& has_handshake_length(reply)
            &&& names_torrent(reply, ours) <==> theirs == ours
        }),
{
    v1_is_68_bytes(theirs, peer_id);
    let sent = v1_model(theirs, peer_id);
    let reply = sent.bytes();
    assert(reply[0] == 19);
    assert(reply.subrange(28, 48) =~= theirs);
}

/// The fields of a handshake stand one after the other: the length of the name, the name, eight bytes
/// of extensions, twenty of the hash and twenty of the name of the client. A byte string is taken for
/// a handshake when it is 49 bytes longer than its first byte says, and what is read then are the
/// bytes at these places.
pub proof fn handshakes_are_spelled_out(handshake: HandshakeModel, bytes: Seq<u8>, read: HandshakeModel)
    requires
        handshake.reserved.len() == 8,
        handshake.info_hash.len() == 20,
        handshake.peer_id.len() == 20,
    ensures
        ({
            let n = utf8::encode_utf8(handshake.pstr).len() as int;
            let sent = handshake.bytes();
            &&& sent.len() == 49 + n
            &&& sent[0] == handshake.pstrlen
            &&& sent.subrange(1, 1 + n) == utf8::encode_utf8(handshake.pstr)
            &&& sent.subrange(1 + n, 9 + n) == handshake.reserved
            &&& sent.subrange(9 + n, 29 + n) == handshake.info_hash
            &&& sent.subrange(29 + n, 49 + n) == handshake.peer_id
        }),
        has_handshake_length(bytes) <==> bytes.len() >= 1 && bytes.len() - bytes[0] == 49,
        has_handshake_length(bytes) && read.read_from(bytes) ==> {
            let n = bytes[0] as int;
            &&& read.pstrlen == n
            &&& read.pstr == lossy_text(bytes.subrange(1, 1 + n))
            &&& utf8::valid_utf8(bytes.subrange(1, 1 + n)) ==> utf8::encode_utf8(read.pstr)
                == bytes.subrange(1, 1 + n)
            &&& read.reserved == bytes.subrange(1 + n, 9 + n)
            &&& read.info_hash == bytes.subrange(9 + n, 29 + n)
            &&& read.peer_id == bytes.subrange(29 + n, 49 + n)
        },
{
    let n = utf8::encode_utf8(handshake.pstr).len() as int;
    let sent = handshake.bytes();
    assert(sent.subrange(1, 1 + n) =~= utf8::encode_utf8(handshake.pstr));
    assert(sent.subrange(1 + n, 9 + n) =~= handshake.reserved);
    assert(sent.subrange(9 + n, 29 + n) =~= handshake.info_hash);
    assert(sent.subrange(29 + n, 49 + n) =~= handshake.peer_id);
    if has_handshake_length(bytes) && read.read_from(bytes) {
        let name = bytes.subrange(1, 1 + bytes[0]);
        if utf8::valid_utf8(name) {
            utf8::decode_utf8_encode_utf8(name);
        }
    }
}

/// A peer passes exactly when the twenty bytes of the hash in its reply, eight bytes after the name
/// of the protocol, are those of the torrent, and it supports the fast extension exactly when the
/// last of these eight bytes, divided by four, is odd.
pub proof fn replies_are_judged_by_their_bytes(reply: Seq<u8>, info_hash: Seq<u8>, reserved: Seq<u8>)
    requires
        has_handshake_length(reply),
        info_hash.len() == 20,
        reserved.len() == 8,
    ensures
        names_torrent(reply, info_hash) <==> (forall|k: int|
            0 <= k < 20 ==> reply[reply[0] + 9 + k] == #[trigger] info_hash[k]),
        supports_fast(reserved) <==> reserved[7] / 4 % 2 == 1,
{
    let named = reply.subrange(reply[0] + 9, reply[0] + 29);
    if names_torrent(reply, info_hash) {
        assert forall|k: int| 0 <= k < 20 implies reply[reply[0] + 9 + k] == #[trigger] info_hash[k] by {
            assert(named[k] == info_hash[k]);
        }
    }
    if forall|k: int| 0 <= k < 20 ==> reply[reply[0] + 9 + k] == #[trigger] info_hash[k] {
        assert(named =~= info_hash);
    }
    let last = reserved[7];
    assert(last & 0x04 != 0 <==> last / 4 % 2 == 1) by (bit_vector);
}

/// The handshake of this version names the protocol, claims no extension, and carries the hash of the
/// torrent and the name of the client.
pub proof fn v1_claims_no_extension(info_hash: Seq<u8>, peer_id: Seq<u8>)
    requires
        info_hash.len() == 20,
        peer_id.len() == 20,
    ensures
        ({
            let handshake = v1_model(info_hash, peer_id);
            &&& handshake.pstr == "BitTorrent protocol"@
            &&& handshake.pstrlen == 19
            &&& handshake.reserved == seq![0u8, 0u8, 0u8, 0u8, 0u8, 0u8, 0u8, 0u8]
            &&& handshake.info_hash == info_hash
            &&& handshake.peer_id == peer_id
            &&& !supports_fast(handshake.reserved)
        }),
{
    assert(v1_model(info_hash, peer_id).reserved =~= seq![
        0u8,
        0u8,
        0u8,
        0u8,
        0u8,
        0u8,
        0u8,
        0u8,
    ]);
    assert(0u8 & 0x04 == 0) by (bit_vector);
}

/// A byte string without the length of a handshake is complained about: one that is empty for that,
/// and any other by the numeral of the length that its first byte gives.
pub proof fn complaints_name_the_length(bytes: Seq<u8>, numeral: Seq<char>)
    ensures
        bytes.len() == 0 ==> length_complaint(bytes) == "Input cannot be empty"@,
        bytes.len() > 0 && length_complaint(bytes) == "pstrlen/pstr is incorrect: "@ + numeral
            ==> text::numeral_value(numeral) == bytes[0],
        bytes.len() > 0 ==> exists|said: Seq<char>|
            length_complaint(bytes) == "pstrlen/pstr is incorrect: "@ + said,
{
    let head = "pstrlen/pstr is incorrect: "@;
    if bytes.len() > 0 {
        let n = bytes[0] as nat;
        text::numerals_stand_for_their_numbers(n);
        assert(length_complaint(bytes) == head + text::decimal(n));
        if length_complaint(bytes) == head + numeral {
            assert(numeral =~= (head + numeral).skip(head.len() as int));
            assert(text::decimal(n) =~= (head + text::decimal(n)).skip(head.len() as int));
        }
    }
}

} // verus!
