use tors_rs::peer::handshake::{try_handshake, Handshake, PeerHandshake, Reserved};

#[test]
fn a_handshake_is_68_bytes_long() {
    let bytes = Handshake::v1([7; 20], [9; 20]).to_bytes();
    assert_eq!(bytes.len(), 68);
    assert_eq!(bytes[0], 19);
    assert_eq!(&bytes[1..20], b"BitTorrent protocol");
    assert_eq!(&bytes[20..28], &[0; 8]);
    assert_eq!(&bytes[28..48], &[7; 20]);
    assert_eq!(&bytes[48..68], &[9; 20]);
    assert_eq!(PeerHandshake::v1([7; 20], [9; 20]).to_bytes(), bytes);
}

#[test]
fn a_handshake_is_read_back() {
    let sent = Handshake {
        pstrlen: 4,
        pstr: "caf\u{e9}".chars().skip(1).collect(),
        reserved: [1, 2, 3, 4, 5, 6, 7, 8],
        info_hash: [3; 20],
        peer_id: [4; 20],
    };
    let read = Handshake::from_bytes(&sent.to_bytes()).unwrap();
    assert_eq!(read.pstrlen, 4);
    assert_eq!(read.pstr, "af\u{e9}");
    assert_eq!(read.reserved, sent.reserved);
    assert_eq!(read.info_hash, sent.info_hash);
    assert_eq!(read.peer_id, sent.peer_id);
    let direct = PeerHandshake::from_bytes(&sent.to_bytes()).unwrap();
    assert_eq!(direct.pstr, "af\u{e9}");
}

#[test]
fn bytes_that_are_not_text_are_replaced() {
    let mut bytes = Handshake::v1([7; 20], [9; 20]).to_bytes();
    bytes[1] = 0xff;
    assert_eq!(Handshake::from_bytes(&bytes).unwrap().pstr, "\u{fffd}itTorrent protocol");
}

#[test]
fn a_handshake_of_a_wrong_length_is_refused() {
    assert_eq!(Handshake::from_bytes(&[]).err().unwrap(), "Input cannot be empty");
    assert_eq!(
        Handshake::from_bytes(&[19; 67]).err().unwrap(),
        "pstrlen/pstr is incorrect: 19"
    );
    assert_eq!(PeerHandshake::from_bytes(&[]).err().unwrap(), "Input cannot be empty");
    assert_eq!(
        PeerHandshake::from_bytes(&[200; 68]).err().unwrap(),
        "pstrlen/pstr is incorrect: 200"
    );
}

#[test]
fn only_clients_of_one_torrent_pass() {
    let ours = Handshake::v1([7; 20], [9; 20]);
    let same = Handshake::v1([7; 20], [1; 20]).to_bytes();
    let other = Handshake::v1([8; 20], [1; 20]).to_bytes();
    assert_eq!(try_handshake(&ours, &same), Ok(true));
    assert_eq!(try_handshake(&ours, &other), Ok(false));
    assert_eq!(
        try_handshake(&ours, &same[1..]),
        Err("pstrlen/pstr is incorrect: 66".to_string())
    );
    let direct = PeerHandshake::v1([7; 20], [9; 20]);
    assert_eq!(direct.try_handshake(&same), Ok(true));
    assert_eq!(direct.try_handshake(&other), Ok(false));
    assert_eq!(direct.try_handshake(&[]), Err("Input cannot be empty".to_string()));
}

#[test]
fn one_bit_tells_of_the_fast_extension() {
    assert!(!Reserved([0; 8]).supports_fast());
    assert!(Reserved([0, 0, 0, 0, 0, 0, 0, 0x04]).supports_fast());
    assert!(!Reserved([0xff, 0xff, 0xff, 0xff, 0xff, 0xff, 0xff, 0xfb]).supports_fast());
}
