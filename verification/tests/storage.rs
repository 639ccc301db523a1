use tors_rs::download::Download;
use tors_rs::layout::FileSlice;
use tors_rs::parsing::{File, FileTypes, Hashes, Metadata, TorrInfo};
use tors_rs::peer::connection::{process_message, Step};
use tors_rs::peer::handshake::Reserved;
use tors_rs::peer::message::read_message;
use tors_rs::peer::state::PeerState;
use tors_rs::peer::writing::{greet, send_block};
use tors_rs::ThreadUpdate;

const CONTENT: &[u8] = b"The quick brown fox jumps over it";

/// Pieces of eight bytes, in files that do not end where pieces do.
fn torrent() -> Metadata {
    let lengths = [3usize, 14, 0, CONTENT.len() - 17];
    Metadata {
        announce: String::new(),
        announce_list: None,
        info: TorrInfo {
            piece_length: 8,
            pieces: Hashes(CONTENT.chunks(8).map(Metadata::info_hash).collect()),
            private: None,
            name: "name".to_string(),
            torr_type: FileTypes::MultiFile {
                files: lengths
                    .iter()
                    .enumerate()
                    .map(|(i, length)| File { length: *length, path: vec![i.to_string()] })
                    .collect(),
            },
        },
        creation_date: None,
        encoding: None,
        comment: None,
        created_by: None,
    }
}

fn read(disk: &[Vec<u8>], part: &FileSlice) -> Vec<u8> {
    disk[part.file][part.offset as usize..][..part.length as usize].to_vec()
}

#[test]
fn blocks_that_are_received_are_read_back() {
    let metadata = torrent();
    let mut download = Download::new(&metadata, &None, '/');
    let mut state = PeerState::channel(Reserved([0; 8]), &metadata);
    let mut disk: Vec<Vec<u8>> =
        download.files.iter().map(|file| vec![0u8; file.length]).collect();

    // the pieces come in an order of their own, each in two blocks
    let mut told = Vec::new();
    for piece in [2u32, 0, 4, 1, 3] {
        let data = CONTENT.chunks(8).nth(piece as usize).unwrap();
        for (begin, block) in [(0u32, &data[..data.len() / 2]), (data.len() as u32 / 2, &data[data.len() / 2..])] {
            let bytes = send_block(piece, begin, block);
            let message = read_message(&bytes[..5]).unwrap().unwrap();
            let mine = download.bitfield();
            let steps =
                process_message(&mut state, &mine, &metadata, &message, &bytes[5..]).unwrap();
            for step in steps {
                match step {
                    Step::Write(part, at) => {
                        disk[part.file][part.offset as usize..][..part.length as usize]
                            .copy_from_slice(&bytes[13 + at..][..part.length as usize]);
                    }
                    Step::Tell(update) => {
                        assert_eq!(update, ThreadUpdate::Downloaded(piece, 0));
                        let parts: Vec<Vec<u8>> = download
                            .parts_of_piece(piece as u64)
                            .iter()
                            .map(|part| read(&disk, part))
                            .collect();
                        let data = download.get_piece_data(piece as u64, &parts).unwrap();
                        told.extend(download.check_piece(piece, &data));
                    }
                    other => panic!("{other:?}"),
                }
            }
        }
    }
    assert_eq!(disk.concat(), CONTENT);
    let mut joined = Vec::new();
    for piece in 0..5 {
        let parts: Vec<Vec<u8>> =
            download.parts_of_piece(piece).iter().map(|part| read(&disk, part)).collect();
        joined.extend_from_slice(&download.get_piece_data(piece, &parts).unwrap());
    }
    assert_eq!(joined, CONTENT);
    assert_eq!(
        told,
        vec![
            ThreadUpdate::Completed(2),
            ThreadUpdate::Completed(0),
            ThreadUpdate::Completed(4),
            ThreadUpdate::Completed(1),
            ThreadUpdate::Completed(3),
            ThreadUpdate::FileComplete,
        ]
    );
}

#[test]
fn an_introduction_is_understood_by_the_other_client() {
    let metadata = torrent();
    let mut download = Download::new(&metadata, &None, '/');
    let hash = download.piece_hashes.0[3];
    assert!(download.record_hash(3, &hash));
    let mut ours = PeerState::channel(Reserved([0; 8]), &metadata);
    let bytes = greet(&mut ours, &download.bitfield());
    let message = read_message(&bytes[..5]).unwrap().unwrap();
    let mut theirs = PeerState::channel(Reserved([0; 8]), &metadata);
    let nothing = Download::new(&metadata, &None, '/').bitfield();
    let payload = &bytes[5..bytes.len() - 5];
    let steps = process_message(&mut theirs, &nothing, &metadata, &message, payload);
    assert_eq!(steps, Ok(vec![Step::NotifyInterest]));
    assert!(theirs.should_be_interested(&nothing));
    assert!(!theirs.should_be_interested(&download.bitfield()));
}
