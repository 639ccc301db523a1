//! The messages that ask for a block or take a request back.
use crate::parsing::Metadata;
use crate::peer::blocks;
use crate::peer::blocks::BLOCK_SIZE;
use crate::peer::message;
use crate::peer::message::{Message, MessageId};
use crate::peer::pieces;
use crate::peer::pieces::{Grid, TrackerModel};
use crate::wire;
use vstd::prelude::*;

verus! {

/// Every block of the torrent can be named in 32-bit numbers: the index of its piece and the
/// position of its first byte in the piece.
pub open spec fn nameable(metadata: Metadata) -> bool {
    &&& metadata.wf()
    &&& metadata.info.torr_type.total() > 0
    &&& metadata.piece_count() <= u32::MAX
    &&& blocks::piece_size(
        0,
        metadata.info.torr_type.total() as int,
        metadata.info.piece_length as int,
    ) <= u32::MAX + 1
}

/// Whether every block of the torrent can be named in 32-bit numbers.
pub fn is_nameable(metadata: &Metadata) -> (fits: bool)
    requires
        metadata.wf(),
    ensures
        fits == nameable(*metadata),
{
    let total: u64 = metadata.info.torr_type.len();
    let piece_length: u64 = metadata.info.piece_length;
    if total == 0 {
        return false;
    }
    proof {
        blocks::ceil_div_covers(total as int, piece_length as int);
        blocks::first_piece_is_largest(0, total as int, piece_length as int);
    }
    let largest: u64 = if total < piece_length {
        total
    } else {
        piece_length
    };
    metadata.num_pieces() as u64 <= u32::MAX as u64 && largest <= u32::MAX as u64 + 1
}

/// The grid has a row for every piece of the torrent, and in it a place for every block.
pub open spec fn fits_torrent(grid: Grid, metadata: Metadata) -> bool {
    &&& grid.len() == metadata.piece_count()
    &&& forall|p: int|
        0 <= p < grid.len() ==> #[trigger] grid[p].len() == blocks::blocks_in(
            blocks::piece_size(
                p,
                metadata.info.torr_type.total() as int,
                metadata.info.piece_length as int,
            ),
        )
}

/// The block with the given piece and index exists.
pub open spec fn exists_in(metadata: Metadata, piece: u32, block: u32) -> bool {
    &&& piece < metadata.piece_count()
    &&& block < blocks::blocks_in(
        blocks::piece_size(
            piece as int,
            metadata.info.torr_type.total() as int,
            metadata.info.piece_length as int,
        ),
    )
}

/// The number of bytes in a block that exists.
pub open spec fn size_of_block(metadata: Metadata, piece: u32, block: u32) -> int {
    blocks::block_size(
        block as int,
        blocks::piece_size(
            piece as int,
            metadata.info.torr_type.total() as int,
            metadata.info.piece_length as int,
        ),
    )
}

/// The bytes of a message about a block: a header, the piece, the first byte and the length.
pub open spec fn block_message(
    header: Message,
    metadata: Metadata,
    piece: u32,
    block: u32,
) -> Seq<u8> {
    message::header_bytes(header) + wire::be32(piece) + wire::be32((block * BLOCK_SIZE) as u32)
        + wire::be32(size_of_block(metadata, piece, block) as u32)
}

/// The header of a request.
pub open spec fn request_header() -> Message {
    Message { length: 13, message_id: Some(MessageId::Request) }
}

/// The header of a message that takes a request back.
pub open spec fn cancel_header() -> Message {
    Message { length: 13, message_id: Some(MessageId::Cancel) }
}

/// The bytes that take requests back, one after the other.
pub open spec fn cancels(metadata: Metadata, requests: Seq<(u32, u32)>) -> Seq<u8>
    decreases requests.len(),
{
    if requests.len() == 0 {
        Seq::empty()
    } else {
        cancels(metadata, requests.drop_last()) + block_message(
            cancel_header(),
            metadata,
            requests.last().0,
            requests.last().1,
        )
    }
}

/// Each request takes 17 bytes to take back.
pub proof fn cancels_length(metadata: Metadata, requests: Seq<(u32, u32)>)
    ensures
        cancels(metadata, requests).len() == 17 * requests.len(),
    decreases requests.len(),
{
    if requests.len() > 0 {
        cancels_length(metadata, requests.drop_last());
    }
}

/// The rows of a grid that fits are no longer than that of a full piece.
pub proof fn rows_are_short(grid: Grid, metadata: Metadata)
    requires
        nameable(metadata),
        fits_torrent(grid, metadata),
    ensures
        grid.len() <= u32::MAX,
        forall|p: int| 0 <= p < grid.len() ==> #[trigger] grid[p].len() <= u32::MAX,
{
    let total = metadata.info.torr_type.total() as int;
    let piece_length = metadata.info.piece_length as int;
    assert forall|p: int| 0 <= p < grid.len() implies #[trigger] grid[p].len() <= u32::MAX by {
        blocks::pieces_tile_torrent(p, total, piece_length);
        blocks::first_piece_is_largest(p, total, piece_length);
        blocks::ceil_div_covers(
            blocks::piece_size(p, total, piece_length),
            BLOCK_SIZE as int,
        );
    }
}

/// The numbers in a message about a block that exists all fit, and the message asks for the whole
/// block.
pub proof fn block_messages_fit(metadata: Metadata, piece: u32, block: u32)
    requires
        nameable(metadata),
        exists_in(metadata, piece, block),
    ensures
        ({
            let total = metadata.info.torr_type.total();
            let piece_length = metadata.info.piece_length;
            &&& blocks::counts_fit(piece, piece_length, total as u64)
            &&& blocks::requested_size(piece, block, piece_length, total as u64) == size_of_block(
                metadata,
                piece,
                block,
            )
            &&& block * BLOCK_SIZE <= u32::MAX
            &&& 0 < size_of_block(metadata, piece, block) <= BLOCK_SIZE
            &&& block * BLOCK_SIZE + size_of_block(metadata, piece, block) <= blocks::piece_size(
                piece as int,
                total as int,
                piece_length as int,
            )
        }),
{
    let total = metadata.info.torr_type.total() as int;
    let piece_length = metadata.info.piece_length as int;
    let size = blocks::piece_size(piece as int, total, piece_length);
    blocks::pieces_tile_torrent(piece as int, total, piece_length);
    blocks::first_piece_is_largest(piece as int, total, piece_length);
    blocks::ceil_div_covers(size, BLOCK_SIZE as int);
    blocks::blocks_tile_piece(block as int, size);
    blocks::requests_ask_for_whole_blocks(
        piece,
        block,
        metadata.info.piece_length,
        total as u64,
    );
}

/// Writes a message about a block.
pub fn write_block_message(header: &Message, metadata: &Metadata, piece: u32, block: u32) -> (bytes:
    Vec<u8>)
    requires
        nameable(*metadata),
        exists_in(*metadata, piece, block),
    ensures
        bytes@ == block_message(*header, *metadata, piece, block),
{
    proof {
        block_messages_fit(*metadata, piece, block);
    }
    let block_size: u32 = blocks::calculate_block_size(
        piece,
        block,
        metadata.info.piece_length,
        metadata.info.torr_type.len(),
    );
    let mut bytes = header.as_bytes();
    wire::append(&mut bytes, wire::u32_to_be(piece).as_slice());
    wire::append(&mut bytes, wire::u32_to_be(block * BLOCK_SIZE).as_slice());
    wire::append(&mut bytes, wire::u32_to_be(block_size).as_slice());
    bytes
}

/// Writes the messages that take requests back.
pub fn cancel_requests(metadata: &Metadata, requests: &Vec<(u32, u32)>) -> (bytes: Vec<u8>)
    requires
        nameable(*metadata),
        forall|i: int|
            0 <= i < requests@.len() ==> exists_in(
                *metadata,
                (#[trigger] requests@[i]).0,
                requests@[i].1,
            ),
    ensures
        bytes@ == cancels(*metadata, requests@),
{
    let header = Message::cancel();
    let mut bytes: Vec<u8> = Vec::new();
    let mut i: usize = 0;
    assert(requests@.take(0) =~= Seq::<(u32, u32)>::empty());
    while i < requests.len()
        invariant
            i <= requests@.len(),
            header == cancel_header(),
            nameable(*metadata),
            forall|k: int|
                0 <= k < requests@.len() ==> exists_in(
                    *metadata,
                    (#[trigger] requests@[k]).0,
                    requests@[k].1,
                ),
            bytes@ == cancels(*metadata, requests@.take(i as int)),
        decreases requests@.len() - i,
    {
        let (piece, block): (u32, u32) = requests[i];
        let message = write_block_message(&header, metadata, piece, block);
        wire::append(&mut bytes, message.as_slice());
        assert(requests@.take(i + 1).drop_last() =~= requests@.take(i as int));
        i = i + 1;
    }
    assert(requests@.take(i as int) =~= requests@);
    bytes
}

/// The pending requests of a grid that fits name blocks that exist.
pub proof fn pending_requests_exist(grid: Grid, metadata: Metadata)
    requires
        nameable(metadata),
        fits_torrent(grid, metadata),
    ensures
        forall|i: int|
            0 <= i < pieces::pending(grid, grid.len() as int).len() ==> exists_in(
                metadata,
                (#[trigger] pieces::pending(grid, grid.len() as int)[i]).0,
                pieces::pending(grid, grid.len() as int)[i].1,
            ),
{
    rows_are_short(grid, metadata);
    pieces::pending_is_outstanding(grid, grid.len() as int);
    let requests = pieces::pending(grid, grid.len() as int);
    assert forall|i: int| 0 <= i < requests.len() implies exists_in(
        metadata,
        (#[trigger] requests[i]).0,
        requests[i].1,
    ) by {
        let (p, b) = requests[i];
        assert(requests.contains((p, b)));
        assert(grid[p as int].len() > b);
    }
}

/// A request of a tracker that fits names a block that exists, and the tracker still fits.
pub proof fn requests_name_blocks(
    before: TrackerModel,
    pieces: Seq<usize>,
    after: TrackerModel,
    answer: Option<(u32, u32)>,
    metadata: Metadata,
)
    requires
        nameable(metadata),
        fits_torrent(before.blocks, metadata),
        before.requests(pieces, after, answer),
    ensures
        fits_torrent(after.blocks, metadata),
        answer matches Some((piece, block)) ==> exists_in(metadata, piece, block),
{
    rows_are_short(before.blocks, metadata);
    pieces::requests_take_new_blocks(before, pieces, after, answer);
    if let Some((p, b)) = answer {
        assert(before.blocks[p as int].len() > b);
        assert forall|q: int| 0 <= q < after.blocks.len() implies #[trigger] after.blocks[q].len()
            == blocks::blocks_in(
            blocks::piece_size(
                q,
                metadata.info.torr_type.total() as int,
                metadata.info.piece_length as int,
            ),
        ) by {
            assert(after.blocks[q].len() == before.blocks[q].len());
        }
    }
}

/// The grid of a torrent of which nothing has been asked for fits it.
pub proof fn fresh_grids_fit(metadata: Metadata)
    requires
        nameable(metadata),
    ensures
        fits_torrent(
            pieces::fresh_grid(
                metadata.info.torr_type.total() as int,
                metadata.info.piece_length as int,
            ),
            metadata,
        ),
{
    let total = metadata.info.torr_type.total() as int;
    let piece_length = metadata.info.piece_length as int;
    let grid = pieces::fresh_grid(total, piece_length);
    blocks::ceil_div_covers(total, piece_length);
    assert forall|p: int| 0 <= p < grid.len() implies #[trigger] grid[p].len() == blocks::blocks_in(
        blocks::piece_size(p, total, piece_length),
    ) by {
        blocks::pieces_tile_torrent(p, total, piece_length);
        blocks::ceil_div_covers(
            blocks::piece_size(p, total, piece_length),
            BLOCK_SIZE as int,
        );
    }
}

/// A block exists exactly when its first byte lies in its piece and in the torrent.
pub proof fn blocks_begin_inside_the_torrent(metadata: Metadata, piece: u32, block: u32)
    requires
        nameable(metadata),
    ensures
        exists_in(metadata, piece, block) <==> block * 16384 < metadata.info.piece_length && piece
            * metadata.info.piece_length + block * 16384 < metadata.info.torr_type.total(),
{
    let total = metadata.info.torr_type.total() as int;
    let piece_length = metadata.info.piece_length as int;
    let size = blocks::piece_size(piece as int, total, piece_length);
    blocks::pieces_take_what_is_left(piece as int, total, piece_length);
    if piece < metadata.piece_count() {
        blocks::pieces_tile_torrent(piece as int, total, piece_length);
        blocks::blocks_take_what_is_left(block as int, size);
    }
}

/// A torrent can be named in 32-bit numbers exactly when it has a byte, at most as many pieces as a
/// 32-bit number counts, and no byte of a piece that is further than 32 bits from its start.
pub proof fn nameable_torrents_are_small_enough(metadata: Metadata)
    requires
        metadata.wf(),
    ensures
        nameable(metadata) <==> {
            &&& metadata.info.torr_type.total() > 0
            &&& metadata.info.torr_type.total() <= 0xffff_ffff * metadata.info.piece_length
            &&& metadata.info.torr_type.total() <= 0x1_0000_0000 || metadata.info.piece_length
                <= 0x1_0000_0000
        },
{
    let total = metadata.info.torr_type.total() as int;
    let piece_length = metadata.info.piece_length as int;
    if total > 0 {
        blocks::ceil_div_covers(total, piece_length);
        blocks::ceil_div_exceeds(total, piece_length, 0xffff_ffff);
        blocks::first_piece_is_largest(0, total, piece_length);
    }
}

/// The header of a request is 13 and 6, that of a message that takes one back 13 and 8. Then follow
/// the piece, the first byte in it, which is 16384 times the block, and the number of bytes: 16384 or,
/// where fewer are left of the piece or of the torrent, as many as are left.
pub proof fn block_messages_are_spelled_out(metadata: Metadata, piece: u32, block: u32, header: Message)
    requires
        nameable(metadata),
        exists_in(metadata, piece, block),
        header == request_header() || header == cancel_header(),
    ensures
        ({
            let bytes = block_message(header, metadata, piece, block);
            let left_of_torrent = metadata.info.torr_type.total() - piece
                * metadata.info.piece_length - block * 16384;
            let left_of_piece = metadata.info.piece_length - block * 16384;
            let length = wire::value(bytes.subrange(13, 17));
            &&& bytes.len() == 17
            &&& bytes.take(5) == seq![
                0u8,
                0u8,
                0u8,
                13u8,
                if header == request_header() {
                    6u8
                } else {
                    8u8
                },
            ]
            &&& wire::value(bytes.subrange(5, 9)) == piece
            &&& wire::value(bytes.subrange(9, 13)) == block * 16384
            &&& 0 < length <= 16384
            &&& length <= left_of_piece
            &&& length <= left_of_torrent
            &&& length == 16384 || length == left_of_piece || length == left_of_torrent
        }),
{
    let total = metadata.info.torr_type.total() as int;
    let piece_length = metadata.info.piece_length as int;
    let size = blocks::piece_size(piece as int, total, piece_length);
    let bytes = block_message(header, metadata, piece, block);
    block_messages_fit(metadata, piece, block);
    blocks::pieces_take_what_is_left(piece as int, total, piece_length);
    blocks::pieces_tile_torrent(piece as int, total, piece_length);
    blocks::blocks_take_what_is_left(block as int, size);
    let begin = (block * BLOCK_SIZE) as u32;
    let length = size_of_block(metadata, piece, block) as u32;
    let two = seq![0u8, 0u8];
    let four = two + two;
    wire::integers_are_spelled_out(0, piece, 0, two, four, four + four);
    wire::integers_are_spelled_out(0, begin, 0, two, four, four + four);
    wire::integers_are_spelled_out(0, length, 0, two, four, four + four);
    assert(bytes.take(5) =~= message::header_bytes(header));
    assert(bytes.subrange(5, 9) =~= wire::be32(piece));
    assert(bytes.subrange(9, 13) =~= wire::be32(begin));
    assert(bytes.subrange(13, 17) =~= wire::be32(length));
}

/// The messages that take requests back stand one after the other, in the order of the requests.
pub proof fn cancels_stand_in_order(metadata: Metadata, requests: Seq<(u32, u32)>, i: int)
    requires
        0 <= i < requests.len(),
    ensures
        cancels(metadata, requests).len() == 17 * requests.len(),
        cancels(metadata, requests).subrange(17 * i, 17 * i + 17) == block_message(
            cancel_header(),
            metadata,
            requests[i].0,
            requests[i].1,
        ),
    decreases requests.len(),
{
    cancels_length(metadata, requests);
    let front = cancels(metadata, requests.drop_last());
    let last = block_message(cancel_header(), metadata, requests.last().0, requests.last().1);
    cancels_length(metadata, requests.drop_last());
    if i < requests.len() - 1 {
        cancels_stand_in_order(metadata, requests.drop_last(), i);
        assert((front + last).subrange(17 * i, 17 * i + 17) =~= front.subrange(17 * i, 17 * i + 17));
    } else {
        assert((front + last).subrange(17 * i, 17 * i + 17) =~= last);
    }
}

} // verus!
