use bytes::BytesMut;
use tors_rs::address::SocketAddrV4;
use tors_rs::parsing::{FileTypes, Hashes, Metadata, TorrInfo};
use tors_rs::torrent::{discover_peers, peers_to_contact};
use tors_rs::tracker::http;
use tors_rs::tracker::http::{PeerDict, Peers, TrackerEvent};
use tors_rs::tracker::udp::{is_provided_for, Action, Event, InvalidAction};
use tors_rs::tracker::udp::{Request, RequestEncoder, Response, ResponseDecoder};
use tors_rs::tracker::{protocol, protocol_for, Protocol};

fn torrent(announce: &str, list: Option<Vec<&str>>) -> Metadata {
    Metadata {
        announce: announce.to_string(),
        announce_list: list.map(|urls| urls.iter().map(|url| url.to_string()).collect()),
        info: TorrInfo {
            piece_length: 16384,
            pieces: Hashes(vec![]),
            private: None,
            name: "name".to_string(),
            torr_type: FileTypes::SingleFile { length: 1234, md5sum: None },
        },
        creation_date: None,
        encoding: None,
        comment: None,
        created_by: None,
    }
}

#[test]
fn the_scheme_tells_how_to_reach_a_tracker() {
    assert_eq!(protocol("http://tracker.example/announce"), Protocol::Http);
    assert_eq!(protocol("HTTPS://tracker.example/announce"), Protocol::Http);
    assert_eq!(protocol("udp://tracker.example:1337"), Protocol::Udp);
    assert_eq!(protocol("wss://tracker.example"), Protocol::Unsupported);
    assert_eq!(protocol("tracker"), Protocol::NotAnAddress);
    assert_eq!(protocol_for(&Some("https".to_string())), Protocol::Http);
    assert_eq!(protocol_for(&Some("ftp".to_string())), Protocol::Unsupported);
    assert_eq!(protocol_for(&None), Protocol::NotAnAddress);
}

#[test]
fn the_first_tracker_over_http_is_asked() {
    let schemes = |list: &[&str]| {
        list.iter()
            .map(|s| if s.is_empty() { None } else { Some(s.to_string()) })
            .collect::<Vec<Option<String>>>()
    };
    assert_eq!(http::pick_tracker(&schemes(&["udp", "wss", "https", "http"])), Ok(2));
    assert_eq!(http::pick_tracker(&schemes(&["http", ""])), Ok(0));
    assert_eq!(http::pick_tracker(&schemes(&["udp", "", "http"])), Err("couldn't parse into URL"));
    assert_eq!(http::pick_tracker(&schemes(&["udp"])), Err("No valid URLs found"));
    assert_eq!(http::pick_tracker(&schemes(&[])), Err("No valid URLs found"));
}

#[test]
fn a_list_of_trackers_comes_before_the_single_one() {
    let metadata = torrent("http://a.example", Some(vec!["udp://b.example", "http://c.example"]));
    assert_eq!(
        http::make_request(&metadata, "k=v"),
        Ok("http://c.example?k=v".to_string())
    );
    let metadata = torrent("http://a.example", Some(vec!["udp://b.example"]));
    assert_eq!(http::make_request(&metadata, "k=v"), Err("No valid URLs found"));
    let metadata = torrent("http://a.example", Some(vec!["nothing", "http://c.example"]));
    assert_eq!(http::make_request(&metadata, "k=v"), Err("couldn't parse into URL"));
}

#[test]
fn a_single_tracker_is_asked_over_http() {
    let metadata = torrent("http://a.example/announce", None);
    assert_eq!(
        http::make_request(&metadata, "k=v"),
        Ok("http://a.example/announce?k=v".to_string())
    );
    let metadata = torrent("udp://a.example", None);
    assert_eq!(http::make_request(&metadata, "k=v"), Err("Unsupported Tracker scheme"));
    let metadata = torrent("nothing", None);
    assert_eq!(http::make_request(&metadata, "k=v"), Err("couldn't parse into URL"));
    assert_eq!(
        http::single_tracker_url("x", &Some("http".to_string()), "p"),
        Ok("x?p".to_string())
    );
}

#[test]
fn an_announcement_tells_everything() {
    let metadata = torrent("", None);
    let peer_id = *b"-RS0100-\x00a&=~/.\xff_-Zz";
    assert_eq!(
        http::format_tracker_params(&metadata, b"abc", &peer_id, 6881),
        "port=6881&event=started&compact=1&uploaded=0&downloaded=0\
         &peer_id=-RS0100-%00a%26%3D~%2F.%FF_-Zz&left=1234\
         &info_hash=%A9%99%3E6G%06%81j%BA%3E%25qxP%C2l%9C%D0%D8%9D"
    );
}

#[test]
fn events_have_their_words() {
    assert_eq!(TrackerEvent::Started.word(), "started");
    assert_eq!(TrackerEvent::Completed.word(), "completed");
    assert_eq!(TrackerEvent::Stopped.word(), "stopped");
}

#[test]
fn a_given_name_takes_twenty_bytes() {
    assert_eq!(http::peer_id_from("abcdefghijklmnopqrst"), Ok(*b"abcdefghijklmnopqrst"));
    assert_eq!(http::peer_id_from("short"), Err("invalid USER_PEER_ID."));
}

#[test]
fn peers_come_in_six_bytes_each() {
    let peers = Peers::from_bytes(&[1, 2, 3, 4, 0, 80, 5, 6, 7, 8, 0x1a, 0xe1]).unwrap();
    assert_eq!(
        peers.0,
        vec![
            SocketAddrV4 { ip: [1, 2, 3, 4], port: 80 },
            SocketAddrV4 { ip: [5, 6, 7, 8], port: 6881 },
        ]
    );
    assert_eq!(
        Peers::from_bytes(&[1, 2, 3]).err(),
        Some("byte string length must be multiple of 6")
    );
}

#[test]
fn peers_come_one_by_one() {
    let mut dicts = vec![PeerDict {
        ip: "1.2.3.4".to_string(),
        parsed: Some([1, 2, 3, 4]),
        port: 80,
    }];
    assert_eq!(
        Peers::from_dicts(&dicts).unwrap().0,
        vec![SocketAddrV4 { ip: [1, 2, 3, 4], port: 80 }]
    );
    dicts.push(PeerDict { ip: "nowhere".to_string(), parsed: None, port: 81 });
    assert_eq!(Peers::from_dicts(&dicts).err().unwrap(), "Invalid IP address: nowhere");
}

#[test]
fn a_tracker_gives_peers_or_a_reason() {
    let address = SocketAddrV4 { ip: [1, 2, 3, 4], port: 80 };
    let success = http::Response::Success {
        warning_message: None,
        interval: 60,
        min_interval: None,
        tracker_id: None,
        peers: Peers(vec![address]),
        complete: None,
        incomplete: None,
    };
    assert_eq!(discover_peers(success), Ok(vec![address]));
    let failure = http::Response::Error { failure_reason: "full".to_string() };
    assert_eq!(
        discover_peers(failure),
        Err("Making request to tracker failed: full".to_string())
    );
    let failure = http::Response::Error { failure_reason: "full".to_string() };
    assert_eq!(failure.into_peers(), Err("full".to_string()));
}

#[test]
fn the_first_peers_are_contacted() {
    let peers: Vec<SocketAddrV4> =
        (0..4u8).map(|n| SocketAddrV4 { ip: [n; 4], port: n as u16 }).collect();
    assert_eq!(peers_to_contact(&peers, 2), peers[..2].to_vec());
    assert_eq!(peers_to_contact(&peers, 10), peers);
    assert_eq!(peers_to_contact(&peers, 0), vec![]);
}

#[test]
fn numbers_stand_for_actions() {
    for (number, action) in
        [(0, Action::Connect), (1, Action::Announce), (2, Action::Scrape), (3, Action::Error)]
    {
        assert_eq!(Action::try_from(number), Ok(action));
        assert_eq!(action.to_number(), number);
    }
    assert_eq!(Action::try_from(4), Err(InvalidAction));
    assert_eq!(InvalidAction.text(), "Invalid action received.");
    assert_eq!(Event::Nothing.to_number(), 0);
    assert_eq!(Event::Completed.to_number(), 1);
    assert_eq!(Event::Started.to_number(), 2);
    assert_eq!(Event::Stopped.to_number(), 3);
}

#[test]
fn a_request_for_a_connection_takes_16_bytes() {
    let mut buffer = BytesMut::from(&b"x"[..]);
    RequestEncoder {}.encode(Request::connect_as(0x01020304), &mut buffer);
    assert_eq!(
        &buffer[..],
        &[b'x', 0, 0, 4, 0x17, 0x27, 0x10, 0x19, 0x80, 0, 0, 0, 0, 1, 2, 3, 4]
    );
    let mut buffer = BytesMut::new();
    RequestEncoder {}.encode(Request::connect(), &mut buffer);
    assert_eq!(buffer.len(), 16);
    assert_eq!(&buffer[..12], &[0, 0, 4, 0x17, 0x27, 0x10, 0x19, 0x80, 0, 0, 0, 0]);
}

#[test]
fn an_announcement_takes_98_bytes() {
    let metadata = torrent("", None);
    let address = SocketAddrV4 { ip: [127, 0, 0, 1], port: 6881 };
    let mut buffer = BytesMut::new();
    let request = Request::announce_as(9, 0x0102, &metadata, b"abc", [7; 20], address);
    RequestEncoder {}.encode(request, &mut buffer);
    assert_eq!(buffer.len(), 98);
    assert_eq!(&buffer[..16], &[0, 0, 0, 0, 0, 0, 1, 2, 0, 0, 0, 1, 0, 0, 0, 9]);
    assert_eq!(&buffer[16..20], &[0xa9, 0x99, 0x3e, 0x36]);
    assert_eq!(&buffer[36..56], &[7; 20]);
    assert_eq!(&buffer[56..64], &[0; 8]);
    assert_eq!(&buffer[64..72], &[0, 0, 0, 0, 0, 0, 4, 0xd2]);
    assert_eq!(&buffer[72..80], &[0; 8]);
    assert_eq!(&buffer[80..84], &[0, 0, 0, 2]);
    assert_eq!(&buffer[84..88], &[127, 0, 0, 1]);
    assert_eq!(&buffer[88..92], &[0; 4]);
    assert_eq!(&buffer[92..96], &[0xff; 4]);
    assert_eq!(&buffer[96..98], &[0x1a, 0xe1]);
    let request = Request::announce(0x0102, &metadata, b"abc", [7; 20], address);
    let mut other = BytesMut::new();
    RequestEncoder {}.encode(request, &mut other);
    assert_eq!(&other[..12], &buffer[..12]);
    assert_eq!(&other[16..], &buffer[16..]);
}

#[test]
fn a_connection_is_read() {
    let mut buffer = BytesMut::from(&[0u8, 0, 0, 0, 0, 0, 0, 5, 0, 0, 0, 0, 0, 0, 1][..]);
    assert!(is_provided_for(&buffer));
    assert!(ResponseDecoder {}.decode(&mut buffer).unwrap().is_none());
    assert_eq!(buffer.len(), 15);
    buffer.extend_from_slice(&[2, 99]);
    let response = ResponseDecoder {}.decode(&mut buffer).unwrap();
    match response {
        Some(Response::Connect { action, transaction_id, connection_id }) => {
            assert_eq!(action, Action::Connect);
            assert_eq!(transaction_id, 5);
            assert_eq!(connection_id, 0x0102);
        }
        other => panic!("{other:?}"),
    }
    assert_eq!(&buffer[..], &[99]);
}

#[test]
fn peers_are_read_when_all_are_there() {
    let mut bytes = vec![0u8, 0, 0, 1, 0, 0, 0, 5, 0, 0, 7, 8, 0, 0, 0, 1, 0, 0, 0, 1];
    bytes.extend_from_slice(&[1, 2, 3, 4, 0, 80]);
    let mut buffer = BytesMut::from(&bytes[..]);
    assert!(is_provided_for(&buffer));
    assert!(ResponseDecoder {}.decode(&mut buffer).unwrap().is_none());
    assert_eq!(buffer.len(), 26);
    buffer.extend_from_slice(&[5, 6, 7, 8, 0x1a, 0xe1]);
    let response = ResponseDecoder {}.decode(&mut buffer).unwrap();
    match response {
        Some(Response::AnnounceV4 {
            action,
            transaction_id,
            interval,
            leechers,
            seeders,
            ip_addrs,
        }) => {
            assert_eq!(action, Action::Announce);
            assert_eq!((transaction_id, interval, leechers, seeders), (5, 0x0708, 1, 1));
            assert_eq!(
                ip_addrs,
                vec![
                    SocketAddrV4 { ip: [1, 2, 3, 4], port: 80 },
                    SocketAddrV4 { ip: [5, 6, 7, 8], port: 6881 },
                ]
            );
        }
        other => panic!("{other:?}"),
    }
    assert!(buffer.is_empty());
}

#[test]
fn an_answer_without_peers_is_never_complete() {
    let mut buffer =
        BytesMut::from(&[0u8, 0, 0, 1, 0, 0, 0, 5, 0, 0, 7, 8, 0, 0, 0, 0, 0, 0, 0, 0][..]);
    assert!(ResponseDecoder {}.decode(&mut buffer).unwrap().is_none());
    let mut short = BytesMut::from(&[0u8, 0, 0][..]);
    assert!(ResponseDecoder {}.decode(&mut short).unwrap().is_none());
}

#[test]
fn some_answers_are_not_provided_for() {
    for action in [2u8, 3] {
        assert!(!is_provided_for(&BytesMut::from(&[0u8, 0, 0, action][..])));
    }
    let mut many = vec![0u8, 0, 0, 1, 0, 0, 0, 5, 0, 0, 7, 8, 0xff, 0, 0, 0, 0, 0, 0, 0];
    many.extend_from_slice(&[0; 6]);
    assert!(!is_provided_for(&BytesMut::from(&many[..])));
    let mut unknown = BytesMut::from(&[0u8, 0, 0, 4][..]);
    assert!(is_provided_for(&unknown));
    assert_eq!(ResponseDecoder {}.decode(&mut unknown).err(), Some(InvalidAction));
}
