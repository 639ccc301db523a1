use tors_rs::address::SocketAddrV4;
use tors_rs::message::BitField;
use tors_rs::parsing::{FileTypes, Hashes, Metadata, TorrInfo};
use tors_rs::peer::direct::{DirectWriter, Peer};
use tors_rs::peer::message::{Message, MessageId};
use tors_rs::peer::peer::{handle_channel_message, process_message, Heard, Received};
use tors_rs::peer::peer::TryRecvError;
use tors_rs::peer::writing::Writer;
use tors_rs::{RecvError, ThreadUpdate};

/// Ten pieces of one block each.
fn torrent() -> Metadata {
    Metadata {
        announce: String::new(),
        announce_list: None,
        info: TorrInfo {
            piece_length: 16384,
            pieces: Hashes(vec![]),
            private: None,
            name: "name".to_string(),
            torr_type: FileTypes::SingleFile { length: 9 * 16384 + 100, md5sum: None },
        },
        creation_date: None,
        encoding: None,
        comment: None,
        created_by: None,
    }
}

fn field(bytes: [u8; 2]) -> BitField {
    BitField { bits: bytes.to_vec(), settable: 10 }
}

fn header(length: u32, id: MessageId) -> Message {
    Message { length, message_id: Some(id) }
}

#[test]
fn the_end_of_the_download_ends_the_session() {
    assert_eq!(handle_channel_message(Ok(ThreadUpdate::FileComplete)), Ok(true));
    assert_eq!(handle_channel_message(Ok(ThreadUpdate::Disconnect)), Ok(false));
    assert_eq!(handle_channel_message(Err(RecvError::Closed)), Ok(true));
    assert_eq!(handle_channel_message(Err(RecvError::Lagged(1))), Err("Stream lagged"));
}

#[test]
fn a_plain_session_hears_its_peer() {
    let metadata = torrent();
    let mut heard = Heard::new(&metadata);
    assert!(heard.choked);
    assert_eq!(heard.peer_bitfield.bits, vec![0, 0]);
    assert_eq!(process_message(&mut heard, &metadata, &Message::unchoke(), vec![]), Ok(None));
    assert!(!heard.choked);
    assert_eq!(process_message(&mut heard, &metadata, &Message::interested(), vec![]), Ok(None));
    assert_eq!(process_message(&mut heard, &metadata, &Message::choke(), vec![]), Ok(None));
    assert!(heard.choked);
    let have = vec![0, 0, 0, 9];
    assert_eq!(process_message(&mut heard, &metadata, &Message::have(), have), Ok(None));
    assert_eq!(heard.peer_bitfield.bits, vec![0, 0b0100_0000]);
    let bits = vec![0b1000_0000, 0];
    let message = header(3, MessageId::BitField);
    assert_eq!(process_message(&mut heard, &metadata, &message, bits), Ok(None));
    assert_eq!(heard.peer_bitfield.bits, vec![0b1000_0000, 0b0100_0000]);
    assert_eq!(process_message(&mut heard, &metadata, &Message::default(), vec![]), Ok(None));
}

#[test]
fn a_plain_session_writes_blocks_to_one_file() {
    let metadata = torrent();
    let mut heard = Heard::new(&metadata);
    let payload = vec![0, 0, 0, 2, 0, 0, 0x40, 5, 7, 7];
    assert_eq!(
        process_message(&mut heard, &metadata, &header(11, MessageId::Piece), payload),
        Ok(Some(Received {
            position: 2 * 16384 + 16389,
            update: ThreadUpdate::Downloaded(2, 1),
        }))
    );
}

#[test]
fn a_set_of_pieces_of_another_size_is_refused() {
    let metadata = torrent();
    let mut heard = Heard::new(&metadata);
    heard.peer_bitfield.settable = 11;
    assert_eq!(
        process_message(&mut heard, &metadata, &header(3, MessageId::BitField), vec![0x80, 0]),
        Err("Number of settable bits differ")
    );
}

#[test]
fn a_round_tells_interest_and_asks() {
    let metadata = torrent();
    let mine = field([0b1000_0000, 0]);
    let mut writer = Writer::from_bit_field(&metadata, &mine);
    let theirs = field([0b1000_0000, 0b0100_0000]);
    let round = writer.round(&metadata, Err(TryRecvError::Empty), true, &mine, &theirs);
    assert_eq!(round.bytes, vec![0, 0, 0, 1, 2]);
    assert!(!round.stop);
    let round = writer.round(&metadata, Err(TryRecvError::Empty), false, &mine, &theirs);
    assert_eq!(
        round.bytes,
        vec![0, 0, 0, 13, 6, 0, 0, 0, 9, 0, 0, 0, 0, 0, 0, 0, 100]
    );
    let round = writer.round(&metadata, Ok(ThreadUpdate::FileComplete), false, &mine, &theirs);
    assert!(round.stop);
    assert_eq!(
        round.bytes,
        vec![0, 0, 0, 13, 8, 0, 0, 0, 9, 0, 0, 0, 0, 0, 0, 0, 100]
    );
    let mine = field([0b1000_0000, 0b0100_0000]);
    let round = writer.round(&metadata, Ok(ThreadUpdate::Completed(9)), false, &mine, &theirs);
    assert_eq!(round.bytes, vec![0, 0, 0, 5, 4, 0, 0, 0, 9, 0, 0, 0, 1, 3]);
    let round = writer.round(&metadata, Err(TryRecvError::Closed), false, &mine, &theirs);
    assert!(round.stop);
    assert_eq!(round.bytes, vec![]);
}

#[test]
fn received_blocks_free_their_place() {
    let metadata = torrent();
    let mine = field([0, 0]);
    let mut writer = Writer::from_bit_field(&metadata, &mine);
    let theirs = field([0xff, 0b1100_0000]);
    let empty = Err(TryRecvError::Empty);
    let mut asked = Vec::new();
    for _ in 0..5 {
        let round = writer.round(&metadata, empty, false, &mine, &theirs);
        asked.push(round.bytes[round.bytes.len() - 9]);
    }
    assert_eq!(writer.round(&metadata, empty, false, &mine, &theirs).bytes, vec![]);
    let update = Ok(ThreadUpdate::Downloaded(asked[0] as u32, 0));
    assert_eq!(writer.round(&metadata, update, false, &mine, &theirs).bytes.len(), 17);
}

#[test]
fn a_peer_is_known_by_its_address() {
    let peer = Peer::from_bytes(&[10, 0, 0, 1, 0x1a, 0xe1, 99]).unwrap();
    assert_eq!(peer.socket_addr, SocketAddrV4 { ip: [10, 0, 0, 1], port: 6881 });
    assert!(peer.am_choking && peer.peer_choking);
    assert!(!peer.am_interested && !peer.peer_interested);
    assert_eq!(peer.peer_id, "");
    assert!(Peer::from_bytes(&[10, 0, 0, 1, 0x1a]).is_none());
    assert_eq!(Peer::default().socket_addr, SocketAddrV4 { ip: [0; 4], port: 0 });
    let address = SocketAddrV4 { ip: [1, 2, 3, 4], port: 5 };
    assert_eq!(Peer::new(address).socket_addr, address);
}

#[test]
fn a_direct_round_sends_each_message_once() {
    let metadata = torrent();
    let mut writer = DirectWriter::new(&metadata);
    let mine = field([0, 0]);
    let theirs = field([0b0010_0000, 0]);
    let update = Ok(ThreadUpdate::Completed(3));
    let round = writer.round(&metadata, update, false, &mine, &theirs);
    assert!(!round.stop);
    let mut expected = vec![0, 0, 0, 5, 4, 0, 0, 0, 3];
    expected.extend_from_slice(&[0, 0, 0, 1, 2]);
    expected.extend_from_slice(&[0, 0, 0, 13, 6, 0, 0, 0, 2, 0, 0, 0, 0, 0, 0, 0x40, 0]);
    assert_eq!(round.bytes, expected);
}

#[test]
fn a_direct_round_ends_with_its_channel() {
    let metadata = torrent();
    let mut writer = DirectWriter::new(&metadata);
    let mine = field([0, 0]);
    let round = writer.round(&metadata, Err(TryRecvError::Closed), false, &mine, &mine);
    assert!(round.stop);
    assert_eq!(round.bytes, vec![]);
    let round = writer.round(&metadata, Ok(ThreadUpdate::FileComplete), false, &mine, &mine);
    assert!(!round.stop);
    assert_eq!(round.bytes, vec![]);
}

#[test]
fn a_direct_round_asks_for_three_blocks_at_most() {
    let metadata = torrent();
    let mut writer = DirectWriter::new(&metadata);
    let mine = field([0, 0]);
    let theirs = field([0xff, 0b1100_0000]);
    let empty = Err(TryRecvError::Empty);
    let first = writer.round(&metadata, empty, false, &mine, &theirs);
    assert_eq!(first.bytes.len(), 5 + 17);
    assert_eq!(writer.round(&metadata, empty, false, &mine, &theirs).bytes.len(), 17);
    assert_eq!(writer.round(&metadata, empty, false, &mine, &theirs).bytes.len(), 17);
    assert_eq!(writer.round(&metadata, empty, false, &mine, &theirs).bytes.len(), 0);
    let update = Ok(ThreadUpdate::Downloaded(first.bytes[13] as u32, 0));
    assert_eq!(writer.round(&metadata, update, false, &mine, &theirs).bytes.len(), 17);
    let choked = writer.round(&metadata, empty, true, &mine, &field([0, 0]));
    assert_eq!(choked.bytes, vec![0, 0, 0, 1, 3]);
}
