use tors_rs::download::Download;
use tors_rs::layout::FileSlice;
use tors_rs::parsing::{File, FileTypes, Hashes, Metadata, TorrInfo};
use tors_rs::peer::connection::{self, bytes_to_read, is_long_enough, is_sensible, Step};
use tors_rs::peer::handshake::Reserved;
use tors_rs::peer::message::{read_message, Message, MessageId};
use tors_rs::peer::relay::{self, ChildUpdates, Halves, Relay};
use tors_rs::peer::requests::is_nameable;
use tors_rs::peer::state::{ChannelHalf, PeerState};
use tors_rs::peer::writing::{answer_request, ask_for, greet, send_bitfield, send_block};
use tors_rs::peer::writing::{Answer, Writer};
use tors_rs::{RecvError, ThreadUpdate};

const PLAIN: Reserved = Reserved([0; 8]);
const FAST: Reserved = Reserved([0, 0, 0, 0, 0, 0, 0, 4]);

/// Ten pieces of two blocks each, in two files.
fn torrent() -> Metadata {
    Metadata {
        announce: String::new(),
        announce_list: None,
        info: TorrInfo {
            piece_length: 32768,
            pieces: Hashes(vec![[1; 20]; 10]),
            private: None,
            name: "name".to_string(),
            torr_type: FileTypes::MultiFile {
                files: vec![
                    File { length: 40000, path: vec!["a".to_string()] },
                    File { length: 327680 - 40000, path: vec!["b".to_string()] },
                ],
            },
        },
        creation_date: None,
        encoding: None,
        comment: None,
        created_by: None,
    }
}

/// A download of which the given pieces are complete.
fn download(complete: &[usize]) -> Download {
    let mut download = Download::new(&torrent(), &None, '/');
    for piece in complete {
        assert!(download.record_hash(*piece, &[1; 20]));
    }
    download
}

fn header(length: u32, id: MessageId) -> Message {
    Message { length, message_id: Some(id) }
}

fn hear(
    state: &mut PeerState,
    complete: &[usize],
    message: Message,
    payload: &[u8],
) -> Result<Vec<Step>, &'static str> {
    assert!(is_sensible(state, &message, payload));
    connection::process_message(
        state,
        &download(complete).bitfield(),
        &torrent(),
        &message,
        payload,
    )
}

fn bits(state: &PeerState) -> Vec<u8> {
    let bytes = send_bitfield(&state.peer_bitfield);
    bytes[5..].to_vec()
}

#[test]
fn a_session_starts_knowing_nothing() {
    let state = PeerState::channel(PLAIN, &torrent());
    assert!(state.am_choking);
    assert!(!state.peer_choking && !state.am_interested && !state.peer_interested);
    assert_eq!(bits(&state), vec![0, 0]);
    assert!(!state.should_be_interested(&download(&[]).bitfield()));
}

#[test]
fn the_other_half_can_end_the_session() {
    assert_eq!(connection::handle_channel_message(Ok(ThreadUpdate::Disconnect)), Ok(true));
    assert_eq!(connection::handle_channel_message(Ok(ThreadUpdate::FileComplete)), Ok(false));
    assert_eq!(connection::handle_channel_message(Err(RecvError::Closed)), Ok(true));
    assert_eq!(
        connection::handle_channel_message(Err(RecvError::Lagged(3))),
        Err("Stream lagged")
    );
}

#[test]
fn payloads_have_their_lengths() {
    assert_eq!(bytes_to_read(&Message::have()), 4);
    assert_eq!(bytes_to_read(&Message::request()), 12);
    assert_eq!(bytes_to_read(&Message::cancel()), 12);
    assert_eq!(bytes_to_read(&header(3, MessageId::Port)), 2);
    assert_eq!(bytes_to_read(&header(3, MessageId::BitField)), 2);
    assert_eq!(bytes_to_read(&header(19, MessageId::Piece)), 18);
    assert_eq!(bytes_to_read(&Message::unchoke()), 0);
    assert_eq!(bytes_to_read(&Message::default()), 0);
    assert!(!is_long_enough(&header(8, MessageId::Piece)));
    assert!(!is_long_enough(&header(0, MessageId::BitField)));
}

#[test]
fn choking_and_interest_of_the_peer_are_noted() {
    let mut state = PeerState::channel(PLAIN, &torrent());
    assert_eq!(hear(&mut state, &[], Message::choke(), &[]), Ok(vec![Step::NotifyChoking]));
    assert!(state.peer_choking);
    assert_eq!(hear(&mut state, &[], Message::unchoke(), &[]), Ok(vec![Step::NotifyChoking]));
    assert!(!state.peer_choking);
    assert_eq!(hear(&mut state, &[], Message::interested(), &[]), Ok(vec![]));
    assert!(state.peer_interested);
    assert_eq!(hear(&mut state, &[], Message::not_interested(), &[]), Ok(vec![]));
    assert!(!state.peer_interested);
}

#[test]
fn a_new_piece_of_the_peer_wakes_interest() {
    let mut state = PeerState::channel(PLAIN, &torrent());
    assert_eq!(
        hear(&mut state, &[], Message::have(), &[0, 0, 0, 9]),
        Ok(vec![Step::NotifyInterest])
    );
    assert!(state.am_interested);
    assert_eq!(bits(&state), vec![0, 0b0100_0000]);
    assert_eq!(hear(&mut state, &[], Message::have(), &[0, 0, 0, 9]), Ok(vec![]));
    assert!(state.should_be_interested(&download(&[]).bitfield()));
    assert!(!state.should_be_interested(&download(&[9]).bitfield()));
    assert!(!is_sensible(&state, &Message::have(), &[0, 0, 0, 10]));
    assert!(!is_sensible(&state, &Message::have(), &[0, 0, 9]));
}

#[test]
fn a_set_of_pieces_is_added() {
    let mut state = PeerState::channel(PLAIN, &torrent());
    let message = header(3, MessageId::BitField);
    assert_eq!(hear(&mut state, &[0], message, &[0b1000_0000, 0]), Ok(vec![]));
    assert!(!state.am_interested);
    assert_eq!(
        hear(&mut state, &[0], message, &[0b0000_0001, 0b0111_1111]),
        Ok(vec![Step::NotifyInterest])
    );
    assert!(state.am_interested);
    assert_eq!(bits(&state)[0], 0b1000_0001);
    assert_eq!(bits(&state)[1] & 0b1100_0000, 0b0100_0000);
    assert!(!is_sensible(&state, &header(2, MessageId::BitField), &[0xff]));
}

#[test]
fn requests_of_the_peer_are_queued() {
    let mut state = PeerState::channel(PLAIN, &torrent());
    let payload = [0, 0, 0, 1, 0, 0, 0x40, 0, 0, 0, 0x40, 0];
    assert_eq!(
        hear(&mut state, &[], Message::request(), &payload),
        Ok(vec![Step::Queue(1, 16384, 16384)])
    );
    assert_eq!(hear(&mut state, &[], Message::cancel(), &payload), Ok(vec![]));
    state.am_choking = false;
    assert_eq!(
        hear(&mut state, &[], Message::cancel(), &payload),
        Ok(vec![Step::Queue(1, 16384, 0)])
    );
}

#[test]
fn a_block_is_written_where_it_belongs() {
    let mut state = PeerState::channel(PLAIN, &torrent());
    let data = vec![5u8; 10000];
    let bytes = send_block(1, 0, &data);
    let message = read_message(&bytes[..5]).unwrap().unwrap();
    assert_eq!(
        hear(&mut state, &[], message, &bytes[5..]),
        Ok(vec![
            Step::Write(FileSlice { file: 0, offset: 32768, length: 7232 }, 0),
            Step::Write(FileSlice { file: 1, offset: 0, length: 2768 }, 7232),
            Step::Tell(ThreadUpdate::Downloaded(1, 0)),
        ])
    );
    let bytes = send_block(9, 16384, &vec![5u8; 16385]);
    let message = read_message(&bytes[..5]).unwrap().unwrap();
    assert_eq!(
        hear(&mut state, &[], message, &bytes[5..]),
        Err("Block lies outside of the torrent")
    );
}

#[test]
fn the_fast_extension_needs_support() {
    let suggest = header(5, MessageId::SuggestPiece);
    let reject = header(13, MessageId::RejectRequest);
    let allowed = header(5, MessageId::AllowedFast);
    let disconnect = Step::Tell(ThreadUpdate::Disconnect);
    let mut plain = PeerState::channel(PLAIN, &torrent());
    let mut fast = PeerState::channel(FAST, &torrent());
    for (message, length) in [(suggest, 4), (reject, 12), (allowed, 4)] {
        let payload = vec![0u8; length];
        assert_eq!(bytes_to_read(&message), length);
        assert!(!is_sensible(&fast, &message, &[]));
        assert_eq!(hear(&mut plain, &[], message, &payload), Ok(vec![disconnect]));
        assert_eq!(hear(&mut fast, &[], message, &payload), Ok(vec![]));
    }
    assert_eq!(
        hear(&mut plain, &[], Message::have_all(), &[]),
        Ok(vec![disconnect, Step::NotifyInterest])
    );
    assert_eq!(
        hear(&mut fast, &[], Message::have_all(), &[]),
        Ok(vec![Step::NotifyInterest])
    );
    assert_eq!(bits(&fast)[0], 0xff);
    assert!(fast.am_interested);
    assert_eq!(
        hear(&mut fast, &[], Message::have_none(), &[]),
        Ok(vec![Step::NotifyInterest])
    );
    assert_eq!(bits(&fast)[0], 0);
    assert!(!fast.am_interested);
    assert_eq!(
        hear(&mut fast, &[0, 1, 2, 3, 4, 5, 6, 7, 8, 9], Message::have_all(), &[]),
        Ok(vec![])
    );
    assert!(!fast.am_interested);
}

#[test]
fn a_message_without_content_does_nothing() {
    let mut state = PeerState::channel(PLAIN, &torrent());
    assert_eq!(hear(&mut state, &[], Message::default(), &[]), Ok(vec![]));
    assert_eq!(hear(&mut state, &[], header(3, MessageId::Port), &[1, 2]), Ok(vec![]));
}

#[test]
fn a_client_introduces_itself() {
    let unchoke = vec![0, 0, 0, 1, 1];
    let mut state = PeerState::channel(PLAIN, &torrent());
    assert_eq!(greet(&mut state, &download(&[]).bitfield()), unchoke);
    assert!(!state.am_choking);

    let bytes = greet(&mut state, &download(&[0, 9]).bitfield());
    assert_eq!(&bytes[..6], &[0, 0, 0, 3, 5, 0b1000_0000]);
    assert_eq!(bytes[6], 0b0100_0000);
    assert_eq!(&bytes[7..], &unchoke[..]);

    let mut state = PeerState::channel(FAST, &torrent());
    assert_eq!(
        greet(&mut state, &download(&[]).bitfield()),
        vec![0, 0, 0, 1, 15, 0, 0, 0, 1, 1]
    );
    assert_eq!(
        greet(&mut state, &download(&[0, 1, 2, 3, 4, 5, 6, 7, 8, 9]).bitfield()),
        vec![0, 0, 0, 1, 14, 0, 0, 0, 1, 1]
    );
    assert_eq!(greet(&mut state, &download(&[4]).bitfield()), unchoke);
}

#[test]
fn blocks_are_asked_for_while_the_peer_does_not_choke() {
    let metadata = torrent();
    assert!(is_nameable(&metadata));
    let mut state = PeerState::channel(PLAIN, &metadata);
    let mut writer = Writer::new(&metadata, &download(&[0]).bitfield());
    hear(&mut state, &[0], header(3, MessageId::BitField), &[0b1100_0000, 0]).unwrap();
    state.peer_choking = true;
    assert_eq!(writer.send_one_round(&state, &metadata), vec![]);
    state.peer_choking = false;
    assert_eq!(
        writer.send_one_round(&state, &metadata),
        vec![0, 0, 0, 13, 6, 0, 0, 0, 1, 0, 0, 0, 0, 0, 0, 0x40, 0]
    );
    // without interest a block is set aside, but nothing is sent
    state.am_interested = false;
    assert_eq!(writer.send_one_round(&state, &metadata), vec![]);
    state.am_interested = true;
    assert_eq!(writer.send_one_round(&state, &metadata), vec![]);
}

#[test]
fn a_short_torrent_may_have_long_pieces() {
    let mut metadata = torrent();
    metadata.info.piece_length = 1 << 40;
    assert!(is_nameable(&metadata));
    assert_eq!(metadata.num_pieces(), 1);
    let bytes = ask_for(&metadata, true, Some((0, 19)));
    assert_eq!(&bytes[9..13], &(19u32 * 16384).to_be_bytes()[..]);
    metadata.info.torr_type = FileTypes::SingleFile { length: (1 << 32) + 1, md5sum: None };
    assert!(!is_nameable(&metadata));
    metadata.info.torr_type = FileTypes::SingleFile { length: 1 << 32, md5sum: None };
    assert!(is_nameable(&metadata));
}

#[test]
fn a_request_is_understood_by_the_other_client() {
    let metadata = torrent();
    let bytes = ask_for(&metadata, true, Some((9, 1)));
    let message = read_message(&bytes[..5]).unwrap().unwrap();
    let mut state = PeerState::channel(PLAIN, &metadata);
    assert_eq!(
        hear(&mut state, &[], message, &bytes[5..]),
        Ok(vec![Step::Queue(9, 16384, 16384)])
    );
    assert_eq!(ask_for(&metadata, false, Some((9, 1))), vec![]);
    assert_eq!(ask_for(&metadata, true, None), vec![]);
}

#[test]
fn updates_are_passed_on_to_the_peer() {
    let metadata = torrent();
    let mut state = PeerState::channel(PLAIN, &metadata);
    let mine = download(&[]).bitfield();
    let mut writer = Writer::new(&metadata, &mine);
    hear(&mut state, &[], header(3, MessageId::BitField), &[0b1000_0000, 0]).unwrap();
    assert_eq!(writer.send_one_round(&state, &metadata).len(), 17);
    assert_eq!(writer.send_one_round(&state, &metadata).len(), 17);

    let update = Ok(ThreadUpdate::Downloaded(0, 1));
    let reaction = writer.process_message(&mut state, &mine, &metadata, update);
    assert_eq!(reaction.bytes, vec![]);
    assert!(!reaction.stop && !reaction.notify_interest);

    let update = Ok(ThreadUpdate::FileComplete);
    let reaction = writer.process_message(&mut state, &mine, &metadata, update);
    assert_eq!(
        reaction.bytes,
        vec![0, 0, 0, 13, 8, 0, 0, 0, 0, 0, 0, 0, 0, 0, 0, 0x40, 0]
    );

    let update = Ok(ThreadUpdate::Completed(0));
    let mine = download(&[0]).bitfield();
    let reaction = writer.process_message(&mut state, &mine, &metadata, update);
    assert_eq!(reaction.bytes, vec![0, 0, 0, 5, 4, 0, 0, 0, 0]);
    assert!(reaction.notify_interest && !reaction.stop);
    assert!(!state.am_interested);

    let update = Ok(ThreadUpdate::FileComplete);
    let reaction = writer.process_message(&mut state, &mine, &metadata, update);
    assert_eq!(reaction.bytes, vec![]);

    for update in [Ok(ThreadUpdate::Disconnect), Err(RecvError::Closed)] {
        let reaction = writer.process_message(&mut state, &mine, &metadata, update);
        assert!(reaction.stop);
        assert_eq!(reaction.bytes, vec![]);
    }
}

#[test]
fn a_change_of_interest_is_told_once() {
    let metadata = torrent();
    let mut state = PeerState::channel(PLAIN, &metadata);
    let mut writer = Writer::new(&metadata, &download(&[]).bitfield());
    assert_eq!(writer.tell_interest(&state), vec![]);
    state.am_interested = true;
    assert_eq!(writer.tell_interest(&state), vec![0, 0, 0, 1, 2]);
    assert_eq!(writer.tell_interest(&state), vec![]);
    state.am_interested = false;
    assert_eq!(writer.tell_interest(&state), vec![0, 0, 0, 1, 3]);
}

#[test]
fn only_pieces_that_are_there_are_served() {
    let mut state = PeerState::channel(PLAIN, &torrent());
    let mine = download(&[3]).bitfield();
    assert_eq!(answer_request(&state, &mine, 3), Answer::Ignore);
    state.am_choking = false;
    assert_eq!(answer_request(&state, &mine, 3), Answer::Serve);
    assert_eq!(answer_request(&state, &mine, 4), Answer::Sever);
    assert_eq!(answer_request(&state, &mine, 400), Answer::Sever);
    assert_eq!(
        send_block(3, 16384, &[1, 2]),
        vec![0, 0, 0, 11, 7, 0, 0, 0, 3, 0, 0, 0x40, 0, 1, 2]
    );
}

#[test]
fn each_end_of_the_queue_does_one_thing() {
    let mut half: ChannelHalf<u8, u8> = ChannelHalf::Sender(1);
    assert_eq!(half.receiver(), None);
    assert_eq!(half.sender(), Ok(&1));
    let mut half: ChannelHalf<u8, u8> = ChannelHalf::Receiver(2);
    assert_eq!(half.receiver(), Some(&mut 2));
    assert_eq!(half.sender(), Err("Invalid call on Receiver"));
}

#[test]
fn updates_are_relayed_in_one_direction() {
    let downloaded = ThreadUpdate::Downloaded(1, 2);
    let completed = ThreadUpdate::Completed(1);
    assert_eq!(relay::from_session(Ok(downloaded)), Relay::Forward(downloaded));
    assert_eq!(relay::from_client(Ok(downloaded)), Relay::Ignore);
    assert_eq!(relay::from_session(Ok(completed)), Relay::Ignore);
    assert_eq!(relay::from_client(Ok(completed)), Relay::Forward(completed));
    assert_eq!(relay::from_session(Ok(ThreadUpdate::Disconnect)), Relay::Stop);
    assert_eq!(relay::from_session(Ok(ThreadUpdate::FileComplete)), Relay::Ignore);
    assert_eq!(relay::from_finishing_session(Ok(ThreadUpdate::FileComplete)), Relay::Stop);
    assert_eq!(relay::from_finishing_session(Ok(ThreadUpdate::Disconnect)), Relay::Ignore);
    assert_eq!(relay::from_finishing_session(Ok(downloaded)), Relay::Forward(downloaded));
    assert_eq!(relay::from_client(Err(RecvError::Closed)), Relay::Stop);
    assert_eq!(relay::from_session(Err(RecvError::Closed)), Relay::Stop);
    assert_eq!(relay::from_session(Err(RecvError::Lagged(1))), Relay::Ignore);
    assert_eq!(relay::from_client(Err(RecvError::Lagged(1))), Relay::Ignore);
}

#[test]
fn a_stream_is_shut_down_when_both_ends_are_back() {
    let mut halves: Halves<u8, char> = Halves::new();
    halves.collect(ChildUpdates::Read(1));
    halves.collect(ChildUpdates::ParentClosed);
    assert_eq!(halves.join(), Err("Read/Write thread failed"));
    let mut halves: Halves<u8, char> = Halves::new();
    halves.collect(ChildUpdates::Write('w'));
    halves.collect(ChildUpdates::Read(2));
    assert_eq!(halves.join(), Ok((2, 'w')));
}
