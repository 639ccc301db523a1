use tors_rs::peer::message::{read_id, read_length, read_message, Announced};
use tors_rs::peer::message::{InvalidMessageId, Message, MessageId};

#[test]
fn headers_have_their_bytes() {
    assert_eq!(Message::default().as_bytes(), vec![0, 0, 0, 0]);
    assert_eq!(Message::choke().as_bytes(), vec![0, 0, 0, 1, 0]);
    assert_eq!(Message::unchoke().as_bytes(), vec![0, 0, 0, 1, 1]);
    assert_eq!(Message::interested().as_bytes(), vec![0, 0, 0, 1, 2]);
    assert_eq!(Message::not_interested().as_bytes(), vec![0, 0, 0, 1, 3]);
    assert_eq!(Message::have().as_bytes(), vec![0, 0, 0, 5, 4]);
    assert_eq!(Message::request().as_bytes(), vec![0, 0, 0, 13, 6]);
    assert_eq!(Message::cancel().as_bytes(), vec![0, 0, 0, 13, 8]);
    assert_eq!(Message::have_all().as_bytes(), vec![0, 0, 0, 1, 14]);
    assert_eq!(Message::have_none().as_bytes(), vec![0, 0, 0, 1, 15]);
}

#[test]
fn every_byte_stands_for_one_message_or_none() {
    let mut known = Vec::new();
    for byte in 0..=255u8 {
        match MessageId::try_from(byte) {
            Ok(id) => {
                assert_eq!(id.to_byte(), byte);
                known.push(byte);
            }
            Err(e) => assert_eq!(e, InvalidMessageId(byte)),
        }
    }
    assert_eq!(known, vec![0, 1, 2, 3, 4, 5, 6, 7, 8, 9, 13, 14, 15, 16, 17]);
}

#[test]
fn headers_are_read_back() {
    for header in [Message::have(), Message::request(), Message::unchoke()] {
        assert_eq!(read_message(&header.as_bytes()), Ok(Some(header)));
    }
    assert_eq!(read_message(&[0, 0, 0, 0, 9]), Ok(None));
    assert_eq!(read_message(&[0, 0, 0, 1, 12]), Err(InvalidMessageId(12)));
}

#[test]
fn a_length_of_zero_keeps_the_connection_alive() {
    assert_eq!(read_length([0, 0, 0, 0]), Announced::KeepAlive);
    assert_eq!(read_length([0, 0, 1, 1]), Announced::Body(257));
    assert_eq!(
        read_id(13, 6),
        Ok(Message { length: 13, message_id: Some(MessageId::Request) })
    );
    assert_eq!(read_id(13, 200), Err(InvalidMessageId(200)));
}
