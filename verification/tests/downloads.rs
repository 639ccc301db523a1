use bytes::Bytes;
use tors_rs::config::{filter_level, new_peer_id, peer_id_with, LogLevel};
use tors_rs::download::{initialized_all, monitor_file_progress, piece_hash};
use tors_rs::download::needs_length;
use tors_rs::download::{Download, Monitor};
use tors_rs::layout::FileSlice;
use tors_rs::parsing::{File, FileTypes, Hashes, Metadata, TorrInfo};
use tors_rs::paths::file_name;
use tors_rs::ports::{listen_address, next_port};
use tors_rs::{RecvError, ThreadUpdate};

/// Three pieces, of which the last one is short.
fn torrent() -> Metadata {
    let pieces = [&b"abcd"[..], b"efgh", b"ij"];
    Metadata {
        announce: String::new(),
        announce_list: None,
        info: TorrInfo {
            piece_length: 4,
            pieces: Hashes(pieces.iter().map(|piece| Metadata::info_hash(piece)).collect()),
            private: None,
            name: "name".to_string(),
            torr_type: FileTypes::MultiFile {
                files: vec![
                    File { length: 6, path: vec!["a".to_string()] },
                    File { length: 4, path: vec!["b".to_string(), "c".to_string()] },
                ],
            },
        },
        creation_date: None,
        encoding: None,
        comment: None,
        created_by: None,
    }
}

#[test]
fn a_download_starts_with_nothing() {
    let download = Download::new(&torrent(), &None, '/');
    assert_eq!(download.num_pieces, 3);
    assert_eq!(download.length, 10);
    assert_eq!(download.num_completed_pieces(), 0);
    assert!(!download.is_downloaded());
    assert_eq!(file_name(&download.files[1], '/'), "name/b/c");
    let elsewhere = Download::new(&torrent(), &Some("dir".to_string()), '/');
    assert_eq!(file_name(&elsewhere.files[0], '/'), "dir/a");
}

#[test]
fn a_piece_is_read_from_its_files() {
    let download = Download::new(&torrent(), &None, '/');
    assert_eq!(
        download.parts_of_piece(0),
        vec![FileSlice { file: 0, offset: 0, length: 4 }]
    );
    assert_eq!(
        download.parts_of_piece(1),
        vec![
            FileSlice { file: 0, offset: 4, length: 2 },
            FileSlice { file: 1, offset: 0, length: 2 },
        ]
    );
    assert_eq!(
        download.parts_of_piece(2),
        vec![FileSlice { file: 1, offset: 2, length: 2 }]
    );
}

#[test]
fn a_piece_is_put_together() {
    let download = Download::new(&torrent(), &None, '/');
    let data = download.get_piece_data(1, &vec![b"ef".to_vec(), b"gh".to_vec()]).unwrap();
    assert_eq!(&data[..], b"efgh");
    assert_eq!(&download.get_piece_data(2, &vec![b"ij".to_vec()]).unwrap()[..], b"ij");
    assert_eq!(
        download.get_piece_data(1, &vec![b"efg".to_vec()]).err(),
        Some("Piece data has incorrect size.")
    );
}

#[test]
fn a_piece_with_its_hash_is_complete() {
    let mut download = Download::new(&torrent(), &None, '/');
    assert!(download.update_piece(0, &Bytes::from_static(b"abcd")));
    assert!(!download.update_piece(0, &Bytes::from_static(b"abcd")));
    assert_eq!(download.num_completed_pieces(), 1);
    assert!(!download.update_piece(0, &Bytes::from_static(b"abcx")));
    assert_eq!(download.num_completed_pieces(), 0);
}

#[test]
fn progress_is_reported() {
    let mut download = Download::new(&torrent(), &None, '/');
    assert_eq!(download.check_piece(0, &Bytes::from_static(b"abcx")), vec![]);
    assert_eq!(
        download.check_piece(0, &Bytes::from_static(b"abcd")),
        vec![ThreadUpdate::Completed(0)]
    );
    download.check_piece(2, &Bytes::from_static(b"ij"));
    assert_eq!(
        download.check_piece(1, &Bytes::from_static(b"efgh")),
        vec![ThreadUpdate::Completed(1), ThreadUpdate::FileComplete]
    );
    assert!(download.is_downloaded());
    assert_eq!(
        download.check_piece(1, &Bytes::from_static(b"efgh")),
        vec![ThreadUpdate::FileComplete]
    );
}

#[test]
fn all_pieces_are_read_back() {
    let mut download = Download::new(&torrent(), &None, '/');
    assert!(download.update_piece(1, &Bytes::from_static(b"efgh")));
    let hashes = vec![
        piece_hash(&Bytes::from_static(b"abcd")),
        piece_hash(&Bytes::from_static(b"efgh")),
        piece_hash(&Bytes::from_static(b"xx")),
    ];
    assert_eq!(download.update_downloads(&hashes), vec![0]);
    assert_eq!(download.num_completed_pieces(), 2);
}

#[test]
fn the_pieces_of_a_download_can_be_taken_along() {
    let mut download = Download::new(&torrent(), &None, '/');
    download.update_piece(1, &Bytes::from_static(b"efgh"));
    let bytes = tors_rs::peer::writing::send_bitfield(&download.bitfield());
    assert_eq!(bytes, vec![0, 0, 0, 2, 5, 0b0100_0000]);
}

#[test]
fn files_that_are_there_are_read_back() {
    assert!(initialized_all(&vec![]));
    assert!(initialized_all(&vec![false, false]));
    assert!(!initialized_all(&vec![false, true]));
    assert!(needs_length(0));
    assert!(!needs_length(1));
}

#[test]
fn the_monitor_follows_updates() {
    assert_eq!(monitor_file_progress(Ok(ThreadUpdate::Downloaded(3, 1))), Monitor::Check(3));
    assert_eq!(monitor_file_progress(Ok(ThreadUpdate::Completed(3))), Monitor::Report(3));
    assert_eq!(monitor_file_progress(Ok(ThreadUpdate::FileComplete)), Monitor::Stop);
    assert_eq!(monitor_file_progress(Ok(ThreadUpdate::Disconnect)), Monitor::Continue);
    assert_eq!(monitor_file_progress(Err(RecvError::Closed)), Monitor::Stop);
    assert_eq!(monitor_file_progress(Err(RecvError::Lagged(2))), Monitor::Continue);
}

#[test]
fn nine_ports_are_tried() {
    for failed in 0..9u16 {
        assert_eq!(next_port(failed), Ok(6881 + failed));
    }
    assert_eq!(next_port(9), Err("Unable to find an open port"));
    assert_eq!(listen_address(6881), "127.0.0.1:6881");
}

#[test]
fn a_client_has_a_name_of_its_own() {
    assert_eq!(peer_id_with(*b"abcdefghijkl"), *b"-RS0100-abcdefghijkl");
    let one = new_peer_id();
    let other = new_peer_id();
    assert_eq!(&one[..8], b"-RS0100-");
    assert!(one[8..] != other[8..]);
}

#[test]
fn levels_have_their_words() {
    assert_eq!(filter_level(None), "info");
    assert_eq!(filter_level(Some(LogLevel::Trace)), "trace");
    assert_eq!(filter_level(Some(LogLevel::Debug)), "debug");
    assert_eq!(filter_level(Some(LogLevel::Info)), "info");
    assert_eq!(filter_level(Some(LogLevel::Warn)), "warn");
    assert_eq!(filter_level(Some(LogLevel::Error)), "error");
}
