//! Exchanges with trackers over HTTP.
use crate::address;
use crate::address::SocketAddrV4;
use crate::digest;
use crate::parsing::Metadata;
use crate::text;
use crate::tracker;
use crate::tracker::Protocol;
use vstd::prelude::*;
use vstd::utf8;

verus! {

/// What a tracker answers.
#[derive(Debug)]
pub enum Response {
    /// Peers of a torrent.
    Success {
        /// Something to show to the user.
        warning_message: Option<String>,
        /// How many seconds to wait between requests.
        interval: usize,
        /// How many seconds to wait at least.
        min_interval: Option<usize>,
        /// A text to send back with the next request.
        tracker_id: Option<String>,
        /// The peers.
        peers: Peers,
        /// How many peers have everything.
        complete: Option<usize>,
        /// How many peers lack something.
        incomplete: Option<usize>,
    },
    /// The request failed.
    Error {
        /// Why it failed.
        failure_reason: String,
    },
}

/// The addresses of peers.
#[derive(Debug)]
pub struct Peers(pub Vec<SocketAddrV4>);

/// A peer in an answer that lists its peers one by one.
#[derive(Debug)]
pub struct PeerDict {
    /// The address, as a text.
    pub ip: String,
    /// The four bytes of the address, if the text is an IPv4 address.
    pub parsed: Option<[u8; 4]>,
    /// The port.
    pub port: usize,
}

/// All of the first `upto` peers have an address.
pub open spec fn all_parsed(dicts: Seq<PeerDict>, upto: int) -> bool {
    forall|i: int| 0 <= i < upto ==> (#[trigger] dicts[i]).parsed is Some
}

/// The address of a peer in an answer that lists its peers one by one.
pub open spec fn address_of(dict: PeerDict) -> SocketAddrV4 {
    SocketAddrV4 { ip: dict.parsed->0, port: dict.port as u16 }
}

/// The addresses of the peers in an answer that lists them one by one.
pub open spec fn addresses_of(dicts: Seq<PeerDict>) -> Seq<SocketAddrV4> {
    dicts.map_values(|dict: PeerDict| address_of(dict))
}

impl Peers {
    /// The peers in a byte string, six bytes each.
    pub fn from_bytes(value: &[u8]) -> (peers: Result<Peers, &'static str>)
        ensures
            match peers {
                Ok(peers) => value@.len() % 6 == 0 && address::lists(value@, peers.0@),
                Err(message) => value@.len() % 6 != 0 && message@
                    == "byte string length must be multiple of 6"@,
            },
    {
        if value.len() % 6 != 0 {
            return Err("byte string length must be multiple of 6");
        }
        Ok(Peers(address::read_list(value)))
    }

    /// The peers of an answer that lists them one by one. The first one without an address is an
    /// error. The ports of those before it fit in 16 bits.
    pub fn from_dicts(dicts: &Vec<PeerDict>) -> (peers: Result<Peers, String>)
        requires
            forall|i: int|
                0 <= i < dicts@.len() && all_parsed(dicts@, i + 1) ==> (#[trigger] dicts@[i]).port
                    <= u16::MAX,
        ensures
            match peers {
                Ok(peers) => {
                    &&& all_parsed(dicts@, dicts@.len() as int)
                    &&& peers.0@ == addresses_of(dicts@)
                },
                Err(message) => exists|i: int|
                    {
                        &&& 0 <= i < dicts@.len()
                        &&& all_parsed(dicts@, i)
                        &&& (#[trigger] dicts@[i]).parsed is None
                        &&& message@ == "Invalid IP address: "@ + dicts@[i].ip@
                    },
            },
    {
        let mut peers: Vec<SocketAddrV4> = Vec::new();
        let mut i: usize = 0;
        while i < dicts.len()
            invariant
                i <= dicts@.len(),
                all_parsed(dicts@, i as int),
                forall|k: int|
                    0 <= k < dicts@.len() && all_parsed(dicts@, k + 1) ==> (
                    #[trigger] dicts@[k]).port <= u16::MAX,
                peers@ =~= addresses_of(dicts@.take(i as int)),
            decreases dicts@.len() - i,
        {
            match dicts[i].parsed {
                None => {
                    let mut message = "Invalid IP address: ".to_owned();
                    message.append(dicts[i].ip.as_str());
                    assert(dicts@[i as int].parsed is None);
                    return Err(message);
                },
                Some(ip) => {
                    assert(all_parsed(dicts@, i + 1));
                    assert(dicts@[i as int].port <= u16::MAX);
                    peers.push(SocketAddrV4 { ip, port: dicts[i].port as u16 });
                },
            }
            i = i + 1;
        }
        assert(dicts@.take(i as int) =~= dicts@);
        Ok(Peers(peers))
    }
}

impl Response {
    /// The peers, or why the request failed.
    pub fn into_peers(self) -> (peers: Result<Vec<SocketAddrV4>, String>)
        ensures
            match self {
                Response::Success { peers: listed, .. } => peers == Ok::<
                    Vec<SocketAddrV4>,
                    String,
                >(listed.0),
                Response::Error { failure_reason } => peers == Err::<
                    Vec<SocketAddrV4>,
                    String,
                >(failure_reason),
            },
    {
        match self {
            Response::Success { peers, .. } => Ok(peers.0),
            Response::Error { failure_reason } => Err(failure_reason),
        }
    }
}

/// What has happened to a download.
#[derive(Copy, Clone, Debug, PartialEq, Eq, Structural)]
pub enum TrackerEvent {
    /// It has begun.
    Started,
    /// It is complete.
    Completed,
    /// It has been stopped.
    Stopped,
}

/// The word for an event.
pub open spec fn word_for(event: TrackerEvent) -> Seq<char> {
    match event {
        TrackerEvent::Started => "started"@,
        TrackerEvent::Completed => "completed"@,
        TrackerEvent::Stopped => "stopped"@,
    }
}

impl TrackerEvent {
    /// The word for the event.
    pub fn word(self) -> (word: &'static str)
        ensures
            word@ == word_for(self),
    {
        match self {
            TrackerEvent::Started => "started",
            TrackerEvent::Completed => "completed",
            TrackerEvent::Stopped => "stopped",
        }
    }
}

/// A byte that stands for itself in a URL: a letter, a digit or one of `-`, `_`, `.` and `~`.
pub open spec fn unreserved(byte: u8) -> bool {
    ||| 0x30 <= byte <= 0x39
    ||| 0x41 <= byte <= 0x5a
    ||| 0x61 <= byte <= 0x7a
    ||| byte == 0x2d
    ||| byte == 0x5f
    ||| byte == 0x2e
    ||| byte == 0x7e
}

/// A hexadecimal digit, in upper case.
pub open spec fn hex_digit(d: int) -> char {
    if d < 10 {
        (0x30 + d) as char
    } else {
        (0x41 + (d - 10)) as char
    }
}

/// A byte as it stands in a URL.
pub open spec fn escaped(byte: u8) -> Seq<char> {
    if unreserved(byte) {
        seq![byte as char]
    } else {
        seq!['%', hex_digit(byte as int / 16), hex_digit(byte as int % 16)]
    }
}

/// A byte string as it stands in a URL.
pub open spec fn percent_encoded(bytes: Seq<u8>) -> Seq<char>
    decreases bytes.len(),
{
    if bytes.len() == 0 {
        Seq::empty()
    } else {
        percent_encoded(bytes.drop_last()) + escaped(bytes.last())
    }
}

/// `urlencoding::encode_binary`: every byte but letters, digits and `-`, `_`, `.`, `~` is written as
/// `%` and two hexadecimal digits in upper case.
#[verifier::external_body]
fn encode_binary(bytes: &[u8]) -> (text: String)
    ensures
        text@ == percent_encoded(bytes@),
{
    urlencoding::encode_binary(bytes).into_owned()
}

/// A character that can stand in a value of a query without ending it.
pub open spec fn plain(c: char) -> bool {
    c != '&' && c != '=' && c != '#' && c != '?'
}

/// An encoded byte string never ends a value of a query early.
pub proof fn encoded_text_is_plain(bytes: Seq<u8>)
    ensures
        forall|i: int|
            0 <= i < percent_encoded(bytes).len() ==> plain(#[trigger] percent_encoded(bytes)[i]),
    decreases bytes.len(),
{
    if bytes.len() > 0 {
        encoded_text_is_plain(bytes.drop_last());
        let last = escaped(bytes.last());
        let front = percent_encoded(bytes.drop_last());
        let all = percent_encoded(bytes);
        assert forall|i: int| 0 <= i < all.len() implies plain(#[trigger] all[i]) by {
            if i < front.len() {
                assert(all[i] == front[i]);
            } else {
                assert(all[i] == last[i - front.len()]);
            }
        }
    }
}

/// The text of a query, as a list of keys with values.
pub open spec fn query(pairs: Seq<(Seq<char>, Seq<char>)>) -> Seq<char>
    decreases pairs.len(),
{
    if pairs.len() == 0 {
        Seq::empty()
    } else {
        let pair = pairs.last().0 + "="@ + pairs.last().1;
        if pairs.len() == 1 {
            pair
        } else {
            query(pairs.drop_last()) + "&"@ + pair
        }
    }
}

/// What a client tells a tracker when a download starts. The order of the keys means nothing.
pub open spec fn announced(port: u16, peer_id: Seq<u8>, left: nat, info_hash: Seq<u8>) -> Seq<
    (Seq<char>, Seq<char>),
> {
    seq![
        ("port"@, text::decimal(port as nat)),
        ("event"@, word_for(TrackerEvent::Started)),
        ("compact"@, "1"@),
        ("uploaded"@, "0"@),
        ("downloaded"@, "0"@),
        ("peer_id"@, percent_encoded(peer_id)),
        ("left"@, text::decimal(left)),
        ("info_hash"@, percent_encoded(info_hash)),
    ]
}

/// The query of the announcement of a download of `total` bytes.
pub open spec fn params_of(total: nat, info_hash: Seq<u8>, peer_id: Seq<u8>, port: u16) -> Seq<char> {
    query(announced(port, peer_id, total, info_hash))
}

/// Adds a key and a value to a query.
fn push_pair(out: &mut String, Ghost(pairs): Ghost<Seq<(Seq<char>, Seq<char>)>>, key: &str, value: &str)
    requires
        old(out)@ == query(pairs),
    ensures
        final(out)@ == query(pairs.push((key@, value@))),
{
    let ghost longer = pairs.push((key@, value@));
    assert(longer.drop_last() =~= pairs);
    proof {
        query_is_not_empty(pairs);
        reveal_strlit("=");
        reveal_strlit("&");
    }
    if !out.as_str().is_empty() {
        out.push('&');
    }
    out.append(key);
    out.push('=');
    out.append(value);
    assert(out@ =~= query(longer));
}

/// A query with a pair in it is not empty.
proof fn query_is_not_empty(pairs: Seq<(Seq<char>, Seq<char>)>)
    ensures
        query(pairs).len() == 0 <==> pairs.len() == 0,
{
    reveal_strlit("=");
    reveal_strlit("&");
}

/// Writes the query of the announcement of a download.
pub fn format_tracker_params(
    metadata: &Metadata,
    serialized: &[u8],
    peer_id: &[u8; 20],
    port: u16,
) -> (params: String)
    requires
        metadata.info.torr_type.total() <= u64::MAX,
    ensures
        params@ == params_of(
            metadata.info.torr_type.total(),
            digest::sha1_of(serialized@),
            peer_id@,
            port,
        ),
{
    let info_hash = Metadata::info_hash(serialized);
    let mut port_text = String::new();
    text::push_decimal(&mut port_text, port as u64);
    let mut left_text = String::new();
    text::push_decimal(&mut left_text, metadata.info.torr_type.len());
    let peer_id_text = encode_binary(peer_id.as_slice());
    let info_hash_text = encode_binary(info_hash.as_slice());

    let ghost all = announced(
        port,
        peer_id@,
        metadata.info.torr_type.total(),
        digest::sha1_of(serialized@),
    );
    let mut out = String::new();
    assert(all.take(0) =~= Seq::empty());
    assert(port_text@ =~= text::decimal(port as nat));
    assert(left_text@ =~= text::decimal(metadata.info.torr_type.total()));
    push_pair(&mut out, Ghost(all.take(0)), "port", port_text.as_str());
    assert(all.take(1) =~= all.take(0).push(all[0]));
    push_pair(&mut out, Ghost(all.take(1)), "event", TrackerEvent::Started.word());
    assert(all.take(2) =~= all.take(1).push(all[1]));
    push_pair(&mut out, Ghost(all.take(2)), "compact", "1");
    assert(all.take(3) =~= all.take(2).push(all[2]));
    push_pair(&mut out, Ghost(all.take(3)), "uploaded", "0");
    assert(all.take(4) =~= all.take(3).push(all[3]));
    push_pair(&mut out, Ghost(all.take(4)), "downloaded", "0");
    assert(all.take(5) =~= all.take(4).push(all[4]));
    push_pair(&mut out, Ghost(all.take(5)), "peer_id", peer_id_text.as_str());
    assert(all.take(6) =~= all.take(5).push(all[5]));
    push_pair(&mut out, Ghost(all.take(6)), "left", left_text.as_str());
    assert(all.take(7) =~= all.take(6).push(all[6]));
    push_pair(&mut out, Ghost(all.take(7)), "info_hash", info_hash_text.as_str());
    assert(all =~= all.take(7).push(all[7]));
    out
}

/// The name of the client that a text gives, which takes 20 bytes.
pub fn peer_id_from(text: &str) -> (peer_id: Result<[u8; 20], &'static str>)
    ensures
        match peer_id {
            Ok(peer_id) => peer_id@ == utf8::encode_utf8(text@),
            Err(message) => utf8::encode_utf8(text@).len() != 20 && message@
                == "invalid USER_PEER_ID."@,
        },
{
    let bytes = text.as_bytes();
    if bytes.len() != 20 {
        return Err("invalid USER_PEER_ID.");
    }
    let peer_id = crate::wire::twenty_at(bytes, 0);
    assert(bytes@.subrange(0, 20) =~= bytes@);
    Ok(peer_id)
}

/// The texts of a list of strings that may be missing.
pub open spec fn texts_of(schemes: Seq<Option<String>>) -> Seq<Option<Seq<char>>> {
    schemes.map_values(|scheme: Option<String>| text::text_of(scheme))
}

/// Which of several trackers to ask, given the schemes of their URLs: the first that can be reached
/// over HTTP, where all before it are URLs. The others are passed over.
pub open spec fn first_http(schemes: Seq<Option<Seq<char>>>, index: int) -> bool {
    &&& 0 <= index < schemes.len()
    &&& tracker::protocol_of(schemes[index]) == Protocol::Http
    &&& forall|i: int|
        0 <= i < index ==> {
            &&& #[trigger] tracker::protocol_of(schemes[i]) != Protocol::Http
            &&& tracker::protocol_of(schemes[i]) != Protocol::NotAnAddress
        }
}

/// A text that is not a URL comes before any tracker that can be reached over HTTP.
pub open spec fn stumbles(schemes: Seq<Option<Seq<char>>>) -> bool {
    exists|index: int|
        {
            &&& 0 <= index < schemes.len()
            &&& #[trigger] tracker::protocol_of(schemes[index]) == Protocol::NotAnAddress
            &&& forall|i: int|
                0 <= i < index ==> #[trigger] tracker::protocol_of(schemes[i]) != Protocol::Http
        }
}

/// Picks the tracker to ask, given the schemes of the URLs.
pub fn pick_tracker(schemes: &Vec<Option<String>>) -> (picked: Result<usize, &'static str>)
    ensures
        match picked {
            Ok(index) => first_http(texts_of(schemes@), index as int),
            Err(message) => if stumbles(texts_of(schemes@)) {
                message@ == "couldn't parse into URL"@
            } else {
                &&& message@ == "No valid URLs found"@
                &&& forall|i: int|
                    0 <= i < schemes@.len() ==> #[trigger] tracker::protocol_of(
                        texts_of(schemes@)[i],
                    ) != Protocol::Http
            },
        },
{
    let ghost texts = texts_of(schemes@);
    let mut i: usize = 0;
    while i < schemes.len()
        invariant
            i <= schemes@.len(),
            texts == texts_of(schemes@),
            forall|k: int|
                0 <= k < i ==> {
                    &&& #[trigger] tracker::protocol_of(texts[k]) != Protocol::Http
                    &&& tracker::protocol_of(texts[k]) != Protocol::NotAnAddress
                },
        decreases schemes@.len() - i,
    {
        assert(texts[i as int] == text::text_of(schemes@[i as int]));
        match tracker::protocol_for(&schemes[i]) {
            Protocol::Http => {
                return Ok(i);
            },
            Protocol::NotAnAddress => {
                assert(tracker::protocol_of(texts[i as int]) == Protocol::NotAnAddress);
                return Err("couldn't parse into URL");
            },
            _ => {},
        }
        i = i + 1;
    }
    Err("No valid URLs found")
}

/// The URL of a request to a tracker.
pub open spec fn request_url(announce: Seq<char>, params: Seq<char>) -> Seq<char> {
    announce + "?"@ + params
}

/// Writes the URL of a request to a tracker.
pub fn create_tracker_url(announce: &str, params: &str) -> (url: String)
    ensures
        url@ == request_url(announce@, params@),
{
    let mut url = announce.to_owned();
    url.append("?");
    url.append(params);
    url
}

/// The URL to ask, where the torrent names one tracker whose URL has the given scheme.
pub fn single_tracker_url(announce: &str, scheme: &Option<String>, params: &str) -> (url: Result<
    String,
    &'static str,
>)
    ensures
        match tracker::protocol_of(text::text_of(*scheme)) {
            Protocol::Http => url matches Ok(url) && url@ == request_url(announce@, params@),
            Protocol::NotAnAddress => url matches Err(message) && message@
                == "couldn't parse into URL"@,
            _ => url matches Err(message) && message@ == "Unsupported Tracker scheme"@,
        },
{
    match tracker::protocol_for(scheme) {
        Protocol::Http => Ok(create_tracker_url(announce, params)),
        Protocol::NotAnAddress => Err("couldn't parse into URL"),
        _ => Err("Unsupported Tracker scheme"),
    }
}

/// The schemes of the URLs of trackers.
pub open spec fn schemes_of(urls: Seq<String>) -> Seq<Option<Seq<char>>> {
    urls.map_values(|url: String| tracker::scheme_of(url@))
}

/// The URL to ask: that of the first tracker in the list that can be reached over HTTP or, where the
/// torrent has no list, of the one tracker that it names.
pub fn make_request(metadata: &Metadata, params: &str) -> (url: Result<String, &'static str>)
    ensures
        match metadata.announce_list {
            Some(urls) => match url {
                Ok(url) => exists|index: int| #[trigger]
                    first_http(schemes_of(urls@), index) && url@ == request_url(
                        urls@[index]@,
                        params@,
                    ),
                Err(message) => if stumbles(schemes_of(urls@)) {
                    message@ == "couldn't parse into URL"@
                } else {
                    &&& message@ == "No valid URLs found"@
                    &&& forall|i: int|
                        0 <= i < urls@.len() ==> #[trigger] tracker::protocol_of(
                            schemes_of(urls@)[i],
                        ) != Protocol::Http
                },
            },
            None => match tracker::protocol_of(tracker::scheme_of(metadata.announce@)) {
                Protocol::Http => url matches Ok(url) && url@ == request_url(
                    metadata.announce@,
                    params@,
                ),
                Protocol::NotAnAddress => url matches Err(message) && message@
                    == "couldn't parse into URL"@,
                _ => url matches Err(message) && message@ == "Unsupported Tracker scheme"@,
            },
        },
{
    match &metadata.announce_list {
        Some(urls) => {
            let mut schemes: Vec<Option<String>> = Vec::new();
            let mut i: usize = 0;
            while i < urls.len()
                invariant
                    i <= urls@.len(),
                    texts_of(schemes@) =~= schemes_of(urls@).take(i as int),
                decreases urls@.len() - i,
            {
                let ghost before = texts_of(schemes@);
                let scheme = tracker::parse_scheme(urls[i].as_str());
                let ghost text = text::text_of(scheme);
                schemes.push(scheme);
                assert(texts_of(schemes@) =~= before.push(text));
                i = i + 1;
            }
            assert(schemes_of(urls@).take(i as int) =~= schemes_of(urls@));
            match pick_tracker(&schemes) {
                Ok(index) => Ok(create_tracker_url(urls[index].as_str(), params)),
                Err(message) => Err(message),
            }
        },
        None => {
            let announce = metadata.announce.as_str();
            single_tracker_url(announce, &tracker::parse_scheme(announce), params)
        },
    }
}

/// The first tracker that can be reached over HTTP is the only one that is asked.
pub proof fn one_tracker_is_asked(schemes: Seq<Option<Seq<char>>>, a: int, b: int)
    requires
        first_http(schemes, a),
        first_http(schemes, b),
    ensures
        a == b,
        !stumbles(schemes),
{
    if a < b {
        assert(tracker::protocol_of(schemes[a]) != Protocol::Http);
    }
    if b < a {
        assert(tracker::protocol_of(schemes[b]) != Protocol::Http);
    }
    if stumbles(schemes) {
        let index = choose|index: int|
            {
                &&& 0 <= index < schemes.len()
                &&& #[trigger] tracker::protocol_of(schemes[index]) == Protocol::NotAnAddress
                &&& forall|i: int|
                    0 <= i < index ==> #[trigger] tracker::protocol_of(schemes[i])
                        != Protocol::Http
            };
        assert(tracker::protocol_of(schemes[a]) == Protocol::Http);
    }
}

/// Each peer of an answer that lists them one by one has the address and the port of its entry.
pub proof fn listed_peers_keep_address_and_port(dicts: Seq<PeerDict>, i: int)
    requires
        0 <= i < dicts.len(),
        dicts[i].parsed is Some,
        dicts[i].port <= u16::MAX,
    ensures
        addresses_of(dicts).len() == dicts.len(),
        Some(addresses_of(dicts)[i].ip) == dicts[i].parsed,
        addresses_of(dicts)[i].port as int == dicts[i].port as int,
{
}

/// The same peers are read from an answer that lists them one by one as from one that gives them as a
/// byte string, six bytes each: four of address and two that spell the port.
pub proof fn both_forms_of_an_answer_agree(dicts: Seq<PeerDict>, bytes: Seq<u8>, read: Seq<SocketAddrV4>)
    requires
        bytes.len() == 6 * dicts.len(),
        forall|i: int|
            0 <= i < dicts.len() ==> {
                &&& (#[trigger] dicts[i]).parsed is Some
                &&& dicts[i].parsed->0@ == bytes.subrange(6 * i, 6 * i + 4)
                &&& dicts[i].port == bytes[6 * i + 4] * 0x100 + bytes[6 * i + 5]
            },
        address::lists(bytes, read),
    ensures
        read == addresses_of(dicts),
{
    assert forall|i: int| 0 <= i < dicts.len() implies #[trigger] read[i] == addresses_of(
        dicts,
    )[i] by {
        address::listed_addresses_stand_in_order(bytes, read, i);
        assert(dicts[i].parsed is Some);
        assert(read[i].ip@ =~= bytes.subrange(6 * i, 6 * i + 4));
        assert(read[i].ip@ == dicts[i].parsed->0@);
        assert(read[i].ip =~= dicts[i].parsed->0);
    }
    assert(read =~= addresses_of(dicts));
}

/// The number that a hexadecimal digit in upper case stands for.
pub open spec fn hex_value(c: char) -> int {
    if '0' <= c <= '9' {
        c as int - '0' as int
    } else {
        c as int - 'A' as int + 10
    }
}

/// A byte stands in a URL for itself, or as `%` and two hexadecimal digits that spell it, and the
/// bytes follow each other.
pub proof fn encoded_bytes_can_be_told(bytes: Seq<u8>, byte: u8)
    ensures
        percent_encoded(Seq::empty()) == Seq::<char>::empty(),
        percent_encoded(bytes.push(byte)) == percent_encoded(bytes) + escaped(byte),
        escaped(byte).len() == 1 || escaped(byte).len() == 3,
        escaped(byte).len() == 1 ==> escaped(byte)[0] as int == byte && byte != '%' as u8,
        escaped(byte).len() == 3 ==> {
            &&& escaped(byte)[0] == '%'
            &&& hex_value(escaped(byte)[1]) * 16 + hex_value(escaped(byte)[2]) == byte
        },
{
    assert(bytes.push(byte).drop_last() =~= bytes);
    assert(byte as int / 16 * 16 + byte as int % 16 == byte);
}

/// A query is made of a key, `=` and a value for each pair, with `&` between the pairs.
pub proof fn queries_list_their_pairs(
    pairs: Seq<(Seq<char>, Seq<char>)>,
    key: Seq<char>,
    value: Seq<char>,
)
    ensures
        query(seq![(key, value)]) == key + seq!['='] + value,
        pairs.len() > 0 ==> query(pairs.push((key, value))) == query(pairs) + seq!['&'] + query(
            seq![(key, value)],
        ),
{
    reveal_strlit("=");
    reveal_strlit("&");
    assert("="@ =~= seq!['=']);
    assert("&"@ =~= seq!['&']);
    assert(pairs.push((key, value)).drop_last() =~= pairs);
    assert(query(seq![(key, value)]) =~= key + seq!['='] + value);
}

/// A tracker is told of the port, that the download starts, that a byte string of peers is wanted,
/// that nothing has been sent or received, of the name of the client, of how many bytes are missing,
/// and of the hash of the torrent, each once.
pub proof fn trackers_are_told_what_starts(port: u16, peer_id: Seq<u8>, left: nat, info_hash: Seq<u8>)
    ensures
        ({
            let told = announced(port, peer_id, left, info_hash);
            &&& told.len() == 8
            &&& told.contains(("port"@, text::decimal(port as nat)))
            &&& told.contains(("event"@, "started"@))
            &&& told.contains(("compact"@, "1"@))
            &&& told.contains(("uploaded"@, "0"@))
            &&& told.contains(("downloaded"@, "0"@))
            &&& told.contains(("peer_id"@, percent_encoded(peer_id)))
            &&& told.contains(("left"@, text::decimal(left)))
            &&& told.contains(("info_hash"@, percent_encoded(info_hash)))
        }),
{
    let told = announced(port, peer_id, left, info_hash);
    assert(told[0] == ("port"@, text::decimal(port as nat)));
    assert(told[1] == ("event"@, "started"@));
    assert(told[2] == ("compact"@, "1"@));
    assert(told[3] == ("uploaded"@, "0"@));
    assert(told[4] == ("downloaded"@, "0"@));
    assert(told[5] == ("peer_id"@, percent_encoded(peer_id)));
    assert(told[6] == ("left"@, text::decimal(left)));
    assert(told[7] == ("info_hash"@, percent_encoded(info_hash)));
}

/// The events have the words that trackers know.
pub proof fn events_have_their_words(event: TrackerEvent)
    ensures
        word_for(event) == (if event == TrackerEvent::Started {
            "started"@
        } else if event == TrackerEvent::Completed {
            "completed"@
        } else {
            "stopped"@
        }),
{
}

/// The schemes with which a tracker is asked.
pub open spec fn is_web(scheme: Option<Seq<char>>) -> bool {
    scheme == Some("http"@) || scheme == Some("https"@)
}

/// The tracker that is asked has the scheme `http` or `https`, and every address before it is a URL
/// with another scheme.
pub proof fn the_first_http_tracker_is_asked(schemes: Seq<Option<Seq<char>>>, index: int)
    ensures
        first_http(schemes, index) <==> {
            &&& 0 <= index < schemes.len()
            &&& is_web(schemes[index])
            &&& forall|i: int|
                0 <= i < index ==> (#[trigger] schemes[i]) is Some && !is_web(schemes[i])
        },
{
    assert forall|i: int| 0 <= i < schemes.len() implies {
        &&& (tracker::protocol_of(#[trigger] schemes[i]) == Protocol::Http <==> is_web(schemes[i]))
        &&& (tracker::protocol_of(schemes[i]) == Protocol::NotAnAddress <==> schemes[i] is None)
    } by {
        tracker::schemes_decide(schemes[i]);
    }
    if first_http(schemes, index) {
        assert forall|i: int| 0 <= i < index implies (#[trigger] schemes[i]) is Some && !is_web(
            schemes[i],
        ) by {
            assert(tracker::protocol_of(schemes[i]) != Protocol::Http);
        }
    }
}

/// A text that is not a URL is stumbled over exactly when no URL with the scheme `http` or `https`
/// comes before it.
pub proof fn texts_before_any_http_tracker_are_stumbled_over(schemes: Seq<Option<Seq<char>>>)
    ensures
        stumbles(schemes) <==> exists|k: int|
            {
                &&& 0 <= k < schemes.len()
                &&& (#[trigger] schemes[k]) is None
                &&& forall|i: int| 0 <= i < k ==> !is_web(#[trigger] schemes[i])
            },
{
    assert forall|i: int| 0 <= i < schemes.len() implies {
        &&& (tracker::protocol_of(#[trigger] schemes[i]) == Protocol::Http <==> is_web(schemes[i]))
        &&& (tracker::protocol_of(schemes[i]) == Protocol::NotAnAddress <==> schemes[i] is None)
    } by {
        tracker::schemes_decide(schemes[i]);
    }
    if stumbles(schemes) {
        let k = choose|k: int|
            {
                &&& 0 <= k < schemes.len()
                &&& #[trigger] tracker::protocol_of(schemes[k]) == Protocol::NotAnAddress
                &&& forall|i: int|
                    0 <= i < k ==> #[trigger] tracker::protocol_of(schemes[i]) != Protocol::Http
            };
        assert(schemes[k] is None);
        assert forall|i: int| 0 <= i < k implies !is_web(#[trigger] schemes[i]) by {
            assert(tracker::protocol_of(schemes[i]) != Protocol::Http);
        }
    }
    if exists|k: int|
        {
            &&& 0 <= k < schemes.len()
            &&& (#[trigger] schemes[k]) is None
            &&& forall|i: int| 0 <= i < k ==> !is_web(#[trigger] schemes[i])
        } {
        let k = choose|k: int|
            {
                &&& 0 <= k < schemes.len()
                &&& (#[trigger] schemes[k]) is None
                &&& forall|i: int| 0 <= i < k ==> !is_web(#[trigger] schemes[i])
            };
        assert(tracker::protocol_of(schemes[k]) == Protocol::NotAnAddress);
    }
}

/// A request goes to the address of the tracker, with a `?` and the query behind it.
pub proof fn requests_carry_their_query(announce: Seq<char>, params: Seq<char>)
    ensures
        ({
            let url = request_url(announce, params);
            &&& url.len() == announce.len() + 1 + params.len()
            &&& url.take(announce.len() as int) == announce
            &&& url[announce.len() as int] == '?'
            &&& url.skip((announce.len() + 1) as int) == params
        }),
{
    reveal_strlit("?");
    let url = request_url(announce, params);
    assert(url.take(announce.len() as int) =~= announce);
    assert(url.skip((announce.len() + 1) as int) =~= params);
}

/// The query of an announcement is made of pairs of keys and values, among them the port, the name of
/// the client, the hash of the torrent and, as what is missing, the whole torrent.
pub proof fn announcements_say_that_all_is_missing(
    total: nat,
    info_hash: Seq<u8>,
    peer_id: Seq<u8>,
    port: u16,
)
    ensures
        exists|pairs: Seq<(Seq<char>, Seq<char>)>|
            {
                &&& params_of(total, info_hash, peer_id, port) == #[trigger] query(pairs)
                &&& pairs.len() == 8
                &&& pairs.contains(("left"@, text::decimal(total)))
                &&& pairs.contains(("port"@, text::decimal(port as nat)))
                &&& pairs.contains(("peer_id"@, percent_encoded(peer_id)))
                &&& pairs.contains(("info_hash"@, percent_encoded(info_hash)))
                &&& pairs.contains(("event"@, "started"@))
                &&& pairs.contains(("compact"@, "1"@))
                &&& pairs.contains(("uploaded"@, "0"@))
                &&& pairs.contains(("downloaded"@, "0"@))
            },
{
    trackers_are_told_what_starts(port, peer_id, total, info_hash);
    assert(params_of(total, info_hash, peer_id, port) == query(
        announced(port, peer_id, total, info_hash),
    ));
}

/// All of the first peers have an address exactly when none of them lacks one.
pub proof fn peers_without_an_address_are_found(dicts: Seq<PeerDict>, upto: int)
    ensures
        all_parsed(dicts, upto) <==> !(exists|i: int|
            0 <= i < upto && (#[trigger] dicts[i]).parsed is None),
{
}

} // verus!
