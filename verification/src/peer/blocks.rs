//! How a torrent divides into pieces and a piece into blocks.
use vstd::arithmetic::div_mod;
use vstd::arithmetic::mul;
use vstd::prelude::*;

verus! {

/// The number of bytes in a block, except for the last one of a piece.
pub const BLOCK_SIZE: u32 = 16384;

/// `a / b`, rounded up.
pub open spec fn ceil_div(a: int, b: int) -> int {
    if a % b == 0 {
        a / b
    } else {
        a / b + 1
    }
}

/// The number of pieces of a torrent of `total` bytes.
pub open spec fn pieces_in(total: int, piece_length: int) -> int {
    ceil_div(total, piece_length)
}

/// The number of bytes in the last piece.
pub open spec fn last_piece_size(total: int, piece_length: int) -> int {
    total - (pieces_in(total, piece_length) - 1) * piece_length
}

/// The number of bytes in piece `piece`.
pub open spec fn piece_size(piece: int, total: int, piece_length: int) -> int {
    if piece == pieces_in(total, piece_length) - 1 {
        last_piece_size(total, piece_length)
    } else {
        piece_length
    }
}

/// The number of blocks of a piece of `size` bytes.
pub open spec fn blocks_in(size: int) -> int {
    ceil_div(size, BLOCK_SIZE as int)
}

/// The number of bytes in the last block of a piece of `size` bytes.
pub open spec fn last_block_size(size: int) -> int {
    size - (blocks_in(size) - 1) * BLOCK_SIZE
}

/// The number of bytes in block `block` of a piece of `size` bytes.
pub open spec fn block_size(block: int, size: int) -> int {
    if block == blocks_in(size) - 1 {
        last_block_size(size)
    } else {
        BLOCK_SIZE as int
    }
}

/// The quotient rounded up is the least number of parts of length `b` that cover `a`.
pub proof fn ceil_div_covers(a: int, b: int)
    requires
        a > 0,
        b > 0,
    ensures
        ceil_div(a, b) > 0,
        (ceil_div(a, b) - 1) * b < a <= ceil_div(a, b) * b,
        ceil_div(a, b) <= a,
        a - (ceil_div(a, b) - 1) * b == (if a % b == 0 {
            b
        } else {
            a % b
        }),
{
    div_mod::lemma_fundamental_div_mod(a, b);
    div_mod::lemma_mod_bound(a, b);
    let q = a / b;
    mul::lemma_mul_is_commutative(b, q);
    mul::lemma_mul_is_distributive_add_other_way(b, q, 1);
    mul::lemma_mul_is_distributive_add_other_way(b, q, -1);
    assert(q >= 0) by (nonlinear_arith)
        requires
            q * b + a % b == a,
            0 <= a % b < b,
            a > 0,
            b > 0,
    ;
    let c = ceil_div(a, b);
    assert(c > 0) by {
        if q == 0 {
            assert(q * b == 0);
        }
    }
    assert(c - 1 <= (c - 1) * b) by (nonlinear_arith)
        requires
            c >= 1,
            b >= 1,
    ;
}

/// The pieces of a torrent lie end to end: each begins where the one before it ends, and the last
/// one ends with the torrent.
pub proof fn pieces_tile_torrent(piece: int, total: int, piece_length: int)
    requires
        total > 0,
        piece_length > 0,
        0 <= piece < pieces_in(total, piece_length),
    ensures
        0 < piece_size(piece, total, piece_length) <= piece_length,
        piece < pieces_in(total, piece_length) - 1 ==> piece * piece_length + piece_size(
            piece,
            total,
            piece_length,
        ) == (piece + 1) * piece_length,
        piece == pieces_in(total, piece_length) - 1 ==> piece * piece_length + piece_size(
            piece,
            total,
            piece_length,
        ) == total,
{
    ceil_div_covers(total, piece_length);
    mul::lemma_mul_is_distributive_add_other_way(piece_length, piece, 1);
    mul::lemma_mul_is_distributive_add_other_way(
        piece_length,
        pieces_in(total, piece_length) - 1,
        1,
    );
}

/// No piece is larger than the first one, which has the piece length or, where the torrent is
/// shorter, the length of the torrent.
pub proof fn first_piece_is_largest(piece: int, total: int, piece_length: int)
    requires
        total > 0,
        piece_length > 0,
        0 <= piece < pieces_in(total, piece_length),
    ensures
        piece_size(piece, total, piece_length) <= piece_size(0, total, piece_length),
        piece_size(0, total, piece_length) == (if total < piece_length {
            total
        } else {
            piece_length
        }),
{
    ceil_div_covers(total, piece_length);
    pieces_tile_torrent(piece, total, piece_length);
    let count = pieces_in(total, piece_length);
    if count == 1 {
        assert((count - 1) * piece_length == 0) by (nonlinear_arith)
            requires
                count == 1,
        ;
    } else {
        assert(piece_length <= (count - 1) * piece_length) by (nonlinear_arith)
            requires
                count >= 2,
                piece_length > 0,
        ;
    }
}

/// The blocks of a piece lie end to end: each begins where the one before it ends, and the last
/// one ends with the piece.
pub proof fn blocks_tile_piece(block: int, size: int)
    requires
        size > 0,
        0 <= block < blocks_in(size),
    ensures
        0 < block_size(block, size) <= BLOCK_SIZE,
        block < blocks_in(size) - 1 ==> block * BLOCK_SIZE + block_size(block, size) == (block + 1)
            * BLOCK_SIZE,
        block == blocks_in(size) - 1 ==> block * BLOCK_SIZE + block_size(block, size) == size,
{
    ceil_div_covers(size, BLOCK_SIZE as int);
}

/// Divides, rounding up.
pub fn div_ceil(a: u64, b: u64) -> (quotient: u64)
    requires
        b > 0,
    ensures
        quotient == ceil_div(a as int, b as int),
{
    if a % b == 0 {
        a / b
    } else {
        proof {
            if a == 0 {
                div_mod::lemma_small_mod(0, b as nat);
            }
            ceil_div_covers(a as int, b as int);
        }
        a / b + 1
    }
}

/// The piece that a request names is the last one. The number of pieces is counted in 32 bits.
pub open spec fn names_last_piece(piece: u32, total: u64, piece_length: u64) -> bool {
    piece == (pieces_in(total as int, piece_length as int) as u64 as u32) - 1
}

/// The size of the piece that a request names.
pub open spec fn named_piece_size(piece: u32, total: u64, piece_length: u64) -> u64 {
    if names_last_piece(piece, total, piece_length) {
        last_piece_size(total as int, piece_length as int) as u64
    } else {
        piece_length
    }
}

/// The block that a request names is the last one of its piece. The number of blocks is counted in
/// 32 bits.
pub open spec fn names_last_block(block: u32, size: u64) -> bool {
    block == (blocks_in(size as int) as u64 as u32) - 1
}

/// The number of bytes to ask for in a request for a block.
pub open spec fn requested_size(piece: u32, block: u32, piece_length: u64, total: u64) -> int {
    let size = named_piece_size(piece, total, piece_length);
    if names_last_block(block, size) {
        last_block_size(size as int)
    } else {
        BLOCK_SIZE as int
    }
}

/// The counts of pieces and of blocks, each cut to 32 bits, are not zero.
pub open spec fn counts_fit(piece: u32, piece_length: u64, total: u64) -> bool {
    &&& piece_length > 0
    &&& total > 0
    &&& pieces_in(total as int, piece_length as int) as u64 as u32 > 0
    &&& blocks_in(named_piece_size(piece, total, piece_length) as int) as u64 as u32 > 0
}

/// Computes the number of bytes to ask for, given a piece and the index of a block in it.
pub fn calculate_block_size(
    piece_index: u32,
    block_index: u32,
    piece_length: u64,
    total_file_size: u64,
) -> (size: u32)
    requires
        counts_fit(piece_index, piece_length, total_file_size),
    ensures
        size == requested_size(piece_index, block_index, piece_length, total_file_size),
{
    proof {
        ceil_div_covers(total_file_size as int, piece_length as int);
    }
    let total_pieces: u32 = div_ceil(total_file_size, piece_length) as u32;
    let is_last_piece = piece_index == total_pieces - 1;

    let actual_piece_size: u64 = if is_last_piece {
        let last_piece_size: u64 = total_file_size % piece_length;
        if last_piece_size == 0 {
            piece_length
        } else {
            last_piece_size
        }
    } else {
        piece_length
    };
    proof {
        assert(actual_piece_size == named_piece_size(piece_index, total_file_size, piece_length));
        ceil_div_covers(actual_piece_size as int, BLOCK_SIZE as int);
    }

    let blocks_in_piece: u64 = div_ceil(actual_piece_size, BLOCK_SIZE as u64);
    let is_last_block = block_index == blocks_in_piece as u32 - 1;

    if is_last_block {
        let remaining_bytes: u64 = actual_piece_size % BLOCK_SIZE as u64;
        if remaining_bytes == 0 {
            BLOCK_SIZE
        } else {
            remaining_bytes as u32
        }
    } else {
        BLOCK_SIZE
    }
}

/// A request for a block that exists asks for exactly that block, where the counts of pieces and
/// blocks fit in 32 bits.
pub proof fn requests_ask_for_whole_blocks(
    piece: u32,
    block: u32,
    piece_length: u64,
    total: u64,
)
    requires
        total > 0,
        piece_length > 0,
        pieces_in(total as int, piece_length as int) <= u32::MAX,
        piece < pieces_in(total as int, piece_length as int),
        blocks_in(piece_size(piece as int, total as int, piece_length as int)) <= u32::MAX,
        block < blocks_in(piece_size(piece as int, total as int, piece_length as int)),
    ensures
        requested_size(piece, block, piece_length, total) == block_size(
            block as int,
            piece_size(piece as int, total as int, piece_length as int),
        ),
        counts_fit(piece, piece_length, total),
{
    pieces_tile_torrent(piece as int, total as int, piece_length as int);
    ceil_div_covers(total as int, piece_length as int);
}

/// A quotient rounded up is more than `k` exactly when `k` parts fall short.
pub proof fn ceil_div_exceeds(a: int, b: int, k: int)
    requires
        a > 0,
        b > 0,
        k >= 0,
    ensures
        k < ceil_div(a, b) <==> k * b < a,
{
    ceil_div_covers(a, b);
    let n = ceil_div(a, b);
    if k < n {
        assert(k * b <= (n - 1) * b) by (nonlinear_arith)
            requires
                k <= n - 1,
                b > 0,
        ;
    } else {
        assert(n * b <= k * b) by (nonlinear_arith)
            requires
                n <= k,
                b > 0,
        ;
    }
}

/// A piece exists exactly when it begins inside the torrent, and it has the piece length or, where
/// less is left of the torrent, what is left.
pub proof fn pieces_take_what_is_left(piece: int, total: int, piece_length: int)
    requires
        total > 0,
        piece_length > 0,
        piece >= 0,
    ensures
        piece < pieces_in(total, piece_length) <==> piece * piece_length < total,
        piece < pieces_in(total, piece_length) ==> piece_size(piece, total, piece_length) == (
        if total - piece * piece_length < piece_length {
            total - piece * piece_length
        } else {
            piece_length
        }),
{
    ceil_div_exceeds(total, piece_length, piece);
    ceil_div_covers(total, piece_length);
    let count = pieces_in(total, piece_length);
    if piece < count - 1 {
        ceil_div_exceeds(total, piece_length, piece + 1);
        assert((piece + 1) * piece_length == piece * piece_length + piece_length)
            by (nonlinear_arith);
    }
}

/// A block exists exactly when it begins inside its piece, and it has 16384 bytes or, where fewer are
/// left of the piece, as many as are left.
pub proof fn blocks_take_what_is_left(block: int, size: int)
    requires
        size > 0,
        block >= 0,
    ensures
        block < blocks_in(size) <==> block * 16384 < size,
        block < blocks_in(size) ==> block_size(block, size) == (if size - block * 16384 < 16384 {
            size - block * 16384
        } else {
            16384
        }),
{
    ceil_div_exceeds(size, BLOCK_SIZE as int, block);
    ceil_div_exceeds(size, BLOCK_SIZE as int, block + 1);
    ceil_div_covers(size, BLOCK_SIZE as int);
}

} // verus!
