use tors_rs::layout::{parts_of, FileSlice};
use tors_rs::parsing::{File, FileTypes, Hashes, Metadata, TorrInfo};
use tors_rs::paths::{file_name, join_texts, split_text};

fn file(length: usize, path: &[&str]) -> File {
    File { length, path: path.iter().map(|s| s.to_string()).collect() }
}

fn torrent(piece_length: u64, torr_type: FileTypes) -> Metadata {
    Metadata {
        announce: "http://tracker.example/announce".to_string(),
        announce_list: None,
        info: TorrInfo {
            piece_length,
            pieces: Hashes(vec![]),
            private: None,
            name: "some/name".to_string(),
            torr_type,
        },
        creation_date: None,
        encoding: None,
        comment: None,
        created_by: None,
    }
}

fn several() -> FileTypes {
    FileTypes::MultiFile {
        files: vec![file(10, &["a"]), file(0, &["b"]), file(25, &["c", "d"])],
    }
}

#[test]
fn the_length_of_a_torrent_is_that_of_its_files() {
    assert_eq!(several().len(), 35);
    assert!(!several().is_empty());
    assert_eq!(FileTypes::SingleFile { length: 7, md5sum: None }.len(), 7);
    assert!(FileTypes::MultiFile { files: vec![] }.is_empty());
}

#[test]
fn the_last_piece_may_be_short() {
    assert_eq!(torrent(10, several()).num_pieces(), 4);
    assert_eq!(torrent(35, several()).num_pieces(), 1);
    assert_eq!(torrent(7, several()).num_pieces(), 5);
    assert_eq!(torrent(7, FileTypes::MultiFile { files: vec![] }).num_pieces(), 0);
}

#[test]
fn the_hash_of_a_torrent_is_that_of_its_bytes() {
    assert_eq!(
        Metadata::info_hash(b"abc"),
        [
            0xa9, 0x99, 0x3e, 0x36, 0x47, 0x06, 0x81, 0x6a, 0xba, 0x3e, 0x25, 0x71, 0x78, 0x50,
            0xc2, 0x6c, 0x9c, 0xd0, 0xd8, 0x9d,
        ]
    );
}

#[test]
fn hashes_are_read_and_written() {
    let mut bytes = vec![1u8; 20];
    bytes.extend_from_slice(&[2u8; 20]);
    let hashes = Hashes::from_bytes(&bytes).unwrap();
    assert_eq!(hashes.0, vec![[1; 20], [2; 20]]);
    assert_eq!(hashes.to_bytes(), bytes);
    assert_eq!(hashes.copy().0, hashes.0);
    assert_eq!(
        Hashes::from_bytes(&bytes[1..]).err(),
        Some("invalid length of hash string")
    );
    assert_eq!(Hashes::from_bytes(&[]).unwrap().0.len(), 0);
}

#[test]
fn a_block_is_found_in_its_files() {
    let metadata = torrent(10, several());
    assert_eq!(
        metadata.file_info_from_piece_block(0, 4, 10).unwrap(),
        vec![
            FileSlice { file: 0, offset: 4, length: 6 },
            FileSlice { file: 1, offset: 0, length: 0 },
            FileSlice { file: 2, offset: 0, length: 4 },
        ]
    );
    assert_eq!(
        metadata.file_info_from_piece_block(3, 0, 5).unwrap(),
        vec![FileSlice { file: 2, offset: 20, length: 5 }]
    );
    let single = torrent(10, FileTypes::SingleFile { length: 12, md5sum: None });
    assert_eq!(
        single.file_info_from_piece_block(1, 1, 1).unwrap(),
        vec![FileSlice { file: 0, offset: 11, length: 1 }]
    );
}

#[test]
fn a_block_outside_of_the_torrent_is_an_error() {
    let metadata = torrent(10, several());
    assert_eq!(
        metadata.file_info_from_piece_block(3, 0, 6),
        Err("Block lies outside of the torrent")
    );
    assert_eq!(
        metadata.file_info_from_piece_block(u64::MAX, u64::MAX, u64::MAX),
        Err("Block lies outside of the torrent")
    );
}

#[test]
fn parts_follow_each_other() {
    let files = vec![file(3, &["a"]), file(4, &["b"]), file(5, &["c"])];
    let parts = parts_of(&files, 1, 11);
    assert_eq!(
        parts,
        vec![
            FileSlice { file: 0, offset: 1, length: 2 },
            FileSlice { file: 1, offset: 0, length: 4 },
            FileSlice { file: 2, offset: 0, length: 4 },
        ]
    );
    assert_eq!(parts.iter().map(|part| part.length).sum::<u64>(), 10);
}

#[test]
fn texts_are_split_and_joined() {
    assert_eq!(split_text("a/bc//d", '/'), vec!["a", "bc", "", "d"]);
    assert_eq!(split_text("", '/'), vec![""]);
    assert_eq!(join_texts(&split_text("/a/b/", '/'), '/'), "/a/b/");
    assert_eq!(join_texts(&vec![], '/'), "");
}

#[test]
fn files_lie_in_the_directory_of_their_torrent() {
    let single = torrent(10, FileTypes::SingleFile { length: 12, md5sum: None });
    assert_eq!(single.info.output_directory(&None), "out");
    assert_eq!(single.info.output_directory(&Some("here".to_string())), "here");
    let files = single.info.files_in(&"out".to_string(), '/');
    assert_eq!(files[0].path, vec!["out", "some", "name"]);
    assert_eq!(file_name(&files[0], '/'), "out/some/name");

    let many = torrent(10, several());
    assert_eq!(many.info.output_directory(&None), "some/name");
    let files = many.info.files_in(&"dir".to_string(), '/');
    assert_eq!(files.len(), 3);
    assert_eq!(files[2].length, 25);
    assert_eq!(file_name(&files[2], '/'), "dir/c/d");
}

#[test]
fn a_file_without_a_name_is_an_error() {
    assert_eq!(several().check_names(), Ok(()));
    assert_eq!(FileTypes::SingleFile { length: 7, md5sum: None }.check_names(), Ok(()));
    let files = vec![file(1, &["a"]), file(1, &[])];
    assert_eq!(FileTypes::MultiFile { files }.check_names(), Err("a file has no name"));
}
