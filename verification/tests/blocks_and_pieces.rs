use tors_rs::peer::blocks::{calculate_block_size, div_ceil};
use tors_rs::peer::pieces::PieceTracker;
use tors_rs::peer::pool::Pieces;

#[test]
fn division_rounds_up() {
    assert_eq!(div_ceil(0, 7), 0);
    assert_eq!(div_ceil(14, 7), 2);
    assert_eq!(div_ceil(15, 7), 3);
}

#[test]
fn only_the_last_block_is_short() {
    // three pieces: 32768, 32768 and 20000 bytes
    let total = 2 * 32768 + 20000;
    assert_eq!(calculate_block_size(0, 0, 32768, total), 16384);
    assert_eq!(calculate_block_size(0, 1, 32768, total), 16384);
    assert_eq!(calculate_block_size(2, 0, 32768, total), 16384);
    assert_eq!(calculate_block_size(2, 1, 32768, total), 20000 - 16384);
    assert_eq!(calculate_block_size(0, 0, 1000, 1000), 1000);
}

#[test]
fn the_blocks_of_a_torrent_add_up() {
    let (piece_length, total) = (40000u64, 90000u64);
    let mut sum: u64 = 0;
    for piece in 0..3u32 {
        let size = if piece == 2 { 10000 } else { 40000 };
        for block in 0..div_ceil(size, 16384) as u32 {
            sum += calculate_block_size(piece, block, piece_length, total) as u64;
        }
    }
    assert_eq!(sum, total);
}

#[test]
fn five_requests_are_open_at_most() {
    let mut tracker = PieceTracker::from_file_info(10 * 16384, 10 * 16384);
    for block in 0..5u32 {
        assert_eq!(tracker.request(vec![0]), Some((0, block)));
    }
    assert_eq!(tracker.request(vec![0]), None);
    assert_eq!(tracker.mark_block_as_downloaded(0, 3), Some(true));
    assert_eq!(tracker.pending_requests(), vec![(0, 0), (0, 1), (0, 2), (0, 4)]);
    assert_eq!(tracker.request(vec![0]), Some((0, 5)));
    assert_eq!(tracker.request(vec![0]), None);
}

#[test]
fn only_pieces_of_the_peer_are_picked() {
    let mut tracker = PieceTracker::from_file_info(4 * 16384, 16384);
    assert_eq!(tracker.request(vec![]), None);
    assert_eq!(tracker.request(vec![2]), Some((2, 0)));
    assert_eq!(tracker.request(vec![2]), None);
    assert_eq!(tracker.request(vec![2, 3]), Some((3, 0)));
    let found = tracker.request(vec![0, 1]).unwrap();
    assert!(found == (0, 0) || found == (1, 0));
}

#[test]
fn a_piece_is_finished_before_another_is_picked() {
    let mut tracker = PieceTracker::from_file_info(4 * 32768, 32768);
    let (piece, block) = tracker.request(vec![0, 1, 2, 3]).unwrap();
    assert_eq!(block, 0);
    assert_eq!(tracker.request(vec![0, 1, 2, 3]), Some((piece, 1)));
    let (other, first) = tracker.request(vec![0, 1, 2, 3]).unwrap();
    assert!(other != piece);
    assert_eq!(first, 0);
}

#[test]
fn the_piece_that_was_chosen_is_asked_for() {
    let mut tracker = PieceTracker::from_file_info(4 * 16384, 16384);
    assert_eq!(tracker.requestable_pieces(&vec![0, 3, 7]), vec![0, 3]);
    assert!(tracker.needs_piece());
    assert_eq!(tracker.request_chosen(Some(3)), Some((3, 0)));
    assert_eq!(tracker.requestable_pieces(&vec![0, 3, 7]), vec![0]);
    assert_eq!(tracker.request_chosen(None), None);
}

#[test]
fn received_pieces_are_not_asked_for() {
    let mut tracker = PieceTracker::from_file_info(2 * 32768, 32768);
    tracker.complete_pieces(&vec![0]);
    assert_eq!(tracker.request(vec![0, 1]), Some((1, 0)));
    assert_eq!(tracker.mark_piece_as_downloaded(1), Some(true));
    assert_eq!(tracker.pending_requests(), vec![]);
    assert_eq!(tracker.request(vec![0, 1]), None);
    assert_eq!(tracker.mark_piece_as_downloaded(2), None);
    assert_eq!(tracker.mark_block_as_downloaded(0, 2), None);
}

#[test]
fn three_blocks_are_drawn_at_most() {
    let mut pool = Pieces::from_file_info(8 * 16384, 2 * 16384);
    let mut drawn = Vec::new();
    for _ in 0..3 {
        drawn.push(pool.request_new(vec![0, 1, 2, 3]).unwrap());
    }
    assert_eq!(pool.request_new(vec![0, 1, 2, 3]), None);
    for (piece, block) in drawn {
        assert!(piece < 4 && block < 2);
    }
}

#[test]
fn blocks_of_listed_pieces_are_drawn() {
    let mut pool = Pieces::from_file_info(4 * 16384, 16384);
    assert_eq!(pool.offers(&vec![2, 3]), vec![(2, 0), (3, 0)]);
    assert_eq!(pool.request_drawn(Some((3, 0))), Some((3, 0)));
    assert_eq!(pool.offers(&vec![0, 2, 3]), vec![(0, 0), (2, 0)]);
    assert_eq!(pool.request_drawn(None), None);

    let mut pool = Pieces::from_file_info(49152, 16384);
    assert_eq!(pool.request_new(vec![2]), Some((2, 0)));
    assert_eq!(pool.request_new(vec![2]), None);
    assert_eq!(pool.offers(&vec![0, 1, 2]), vec![(0, 0), (1, 0)]);
}

/// Goes through a session, and holds the tracker against a record of what has happened.
#[test]
fn a_tracker_keeps_to_its_history() {
    let mut tracker = PieceTracker::from_file_info(6 * 32768 - 20000, 32768);
    tracker.complete_pieces(&vec![4]);
    let mut given_out: Vec<(u32, u32)> = Vec::new();
    let mut open: Vec<(u32, u32)> = Vec::new();
    for round in 0..40 {
        let found = tracker.request(vec![0, 1, 2, 3, 4, 5]);
        if open.len() == 5 {
            assert_eq!(found, None);
        }
        if let Some(pair) = found {
            assert!(!given_out.contains(&pair));
            assert!(pair.0 != 4);
            given_out.push(pair);
            open.push(pair);
            open.sort();
        }
        assert_eq!(tracker.pending_requests(), open);
        assert!(open.len() <= 5);
        if round % 3 == 2 && !open.is_empty() {
            let (piece, block) = open.remove(round % open.len());
            tracker.mark_block_as_downloaded(piece as usize, block as usize);
        }
        if round == 10 {
            let piece = open[0].0;
            tracker.mark_piece_as_downloaded(piece as usize);
            open.retain(|pair| pair.0 != piece);
        }
        assert_eq!(tracker.pending_requests(), open);
    }
    assert!(given_out.len() >= 8 && given_out.len() <= 9);
}

#[test]
fn the_pool_counts_what_is_open() {
    let mut pool = Pieces::from_file_info(2 * 16384, 16384);
    assert_eq!(pool.request(0, 0), Some(true));
    assert_eq!(pool.request(2, 0), None);
    assert_eq!(pool.finish_request(0, 0), Some(true));
    assert_eq!(pool.finish_request(0, 1), None);
    assert_eq!(pool.complete_piece(1), Some(true));
    assert_eq!(pool.complete_piece(2), None);
    assert_eq!(pool.request_new(vec![0, 1]), None);
}
