//! A pool of blocks from which requests are drawn at random.
use crate::peer::blocks;
use crate::peer::pieces;
use crate::peer::BlockState;
use crate::random;
use vstd::prelude::*;

verus! {

/// The blocks of a pool, seen from outside.
#[verifier::ext_equal]
pub struct PoolModel {
    /// The state of every block.
    pub blocks: Seq<Seq<BlockState>>,
    /// How many blocks there are.
    pub num_total_blocks: nat,
    /// How many requests count as unanswered.
    pub num_requested: nat,
    /// How many blocks count as received.
    pub num_downloaded: nat,
    /// How many requests may be unanswered at once.
    pub request_limit: nat,
}

/// The blocks of piece `piece` that have not been asked for, among its first `upto`.
pub open spec fn offered_by_piece(row: Seq<BlockState>, piece: usize, upto: int) -> Seq<
    (usize, usize),
>
    decreases upto,
{
    if upto <= 0 {
        Seq::empty()
    } else {
        let before = offered_by_piece(row, piece, upto - 1);
        if row[upto - 1] == BlockState::UnRequested {
            before.push((piece, (upto - 1) as usize))
        } else {
            before
        }
    }
}

/// The blocks that have not been asked for, of the first `upto` listed pieces.
pub open spec fn offered(grid: Seq<Seq<BlockState>>, listed: Seq<usize>, upto: int) -> Seq<
    (usize, usize),
>
    decreases upto,
{
    if upto <= 0 {
        Seq::empty()
    } else {
        let piece = listed[upto - 1];
        let row = grid[piece as int];
        offered(grid, listed, upto - 1) + offered_by_piece(row, piece, row.len() as int)
    }
}

/// A pair names a block of the grid.
pub open spec fn in_grid(grid: Seq<Seq<BlockState>>, pair: (usize, usize)) -> bool {
    pair.0 < grid.len() && pair.1 < grid[pair.0 as int].len()
}

impl PoolModel {
    /// Every block that is asked for is counted.
    pub open spec fn wf(self) -> bool {
        pieces::outstanding(self.blocks) <= self.num_requested
    }

    /// The pairs that a request may draw.
    pub open spec fn offers(self, listed: Seq<usize>) -> Seq<(usize, usize)> {
        offered(self.blocks, listed, listed.len() as int)
    }

    /// The pool after a block has been received. A block that does not exist changes nothing.
    pub open spec fn block_received(self, piece: int, block: int) -> Self {
        if piece < self.blocks.len() && block < self.blocks[piece].len() {
            PoolModel {
                blocks: pieces::with_block(self.blocks, piece, block, BlockState::Completed),
                num_requested: (self.num_requested - if self.blocks[piece][block]
                    == BlockState::Requested {
                    1int
                } else {
                    0
                }) as nat,
                ..self
            }
        } else {
            self
        }
    }

    /// The pool after a whole piece has been received. A piece that does not exist changes nothing.
    pub open spec fn piece_received(self, piece: int) -> Self {
        if piece < self.blocks.len() {
            PoolModel {
                blocks: pieces::with_piece_completed(self.blocks, piece),
                num_requested: (self.num_requested - pieces::outstanding_in_piece(
                    self.blocks[piece],
                )) as nat,
                ..self
            }
        } else {
            self
        }
    }

    /// Every listed piece exists.
    pub open spec fn can_draw(self, listed: Seq<usize>) -> bool {
        forall|i: int| 0 <= i < listed.len() ==> listed[i] < self.blocks.len()
    }

    /// What a request may do, given the pieces that the peer has: unless as many requests are
    /// unanswered as may be, it takes one of the blocks of these pieces that have not been asked for,
    /// if there is one.
    pub open spec fn draws(
        self,
        listed: Seq<usize>,
        after: Self,
        found: Option<(u32, u32)>,
    ) -> bool {
        if self.num_requested >= self.request_limit {
            found is None && after == self
        } else {
            match found {
                Some(found) => exists|pair: (usize, usize)| #[trigger]
                    self.offers(listed).contains(pair) && found == (pair.0 as u32, pair.1 as u32)
                        && after == self.asked_for(pair.0 as int, pair.1 as int),
                None => self.offers(listed).len() == 0 && after == self,
            }
        }
    }

    /// The pool after a block has been asked for.
    pub open spec fn asked_for(self, piece: int, block: int) -> Self {
        PoolModel {
            blocks: pieces::with_block(self.blocks, piece, block, BlockState::Requested),
            num_requested: self.num_requested + 1,
            ..self
        }
    }
}

/// The pool of a torrent of which nothing has been asked for.
pub open spec fn fresh_pool(total: int, piece_length: int) -> PoolModel {
    PoolModel {
        blocks: pieces::fresh_grid(total, piece_length),
        num_total_blocks: ((blocks::pieces_in(total, piece_length) - 1) * blocks::blocks_in(
            piece_length,
        ) + blocks::blocks_in(blocks::last_piece_size(total, piece_length))) as nat,
        num_requested: 0,
        num_downloaded: 0,
        request_limit: 3,
    }
}

/// The blocks of a torrent and what has happened to them.
#[derive(Debug)]
pub struct Pieces {
    num_total_blocks: usize,
    num_requested: usize,
    num_downloaded: usize,
    request_limit: usize,
    blocks: Vec<Vec<BlockState>>,
}

impl View for Pieces {
    type V = PoolModel;

    closed spec fn view(&self) -> PoolModel {
        PoolModel {
            blocks: pieces::grid_of(self.blocks@),
            num_total_blocks: self.num_total_blocks as nat,
            num_requested: self.num_requested as nat,
            num_downloaded: self.num_downloaded as nat,
            request_limit: self.request_limit as nat,
        }
    }
}

impl Pieces {
    /// A pool of a torrent of which nothing has been asked for.
    pub fn from_file_info(file_length: u64, piece_length: u64) -> (pool: Self)
        requires
            file_length > 0,
            piece_length > 0,
            file_length <= usize::MAX,
            blocks::blocks_in(piece_length as int) <= usize::MAX,
        ensures
            pool@ == fresh_pool(file_length as int, piece_length as int),
            pool@.wf(),
    {
        proof {
            blocks::ceil_div_covers(file_length as int, piece_length as int);
        }
        let num_pieces: u64 = blocks::div_ceil(file_length, piece_length);
        let last_piece_begin: u64 = (num_pieces - 1) * piece_length;
        let last_piece_size: u64 = file_length - last_piece_begin;
        let last_piece_num_blocks: u64 = blocks::div_ceil(
            last_piece_size,
            blocks::BLOCK_SIZE as u64,
        );
        let standard_num_blocks: u64 = blocks::div_ceil(piece_length, blocks::BLOCK_SIZE as u64);
        proof {
            blocks::ceil_div_covers(piece_length as int, blocks::BLOCK_SIZE as int);
            blocks::ceil_div_covers(last_piece_size as int, blocks::BLOCK_SIZE as int);
            let full = num_pieces - 1;
            assert(0 <= full * standard_num_blocks <= full * piece_length) by (nonlinear_arith)
                requires
                    full >= 0,
                    0 <= standard_num_blocks <= piece_length,
            ;
        }
        let blocks = pieces::fresh_blocks(file_length, piece_length);
        Pieces {
            num_requested: 0,
            num_downloaded: 0,
            request_limit: 3,
            num_total_blocks: ((num_pieces - 1) * standard_num_blocks + last_piece_num_blocks) as usize,
            blocks,
        }
    }

    /// Marks a block as asked for. Returns nothing when there is no such block.
    pub fn request(&mut self, piece: usize, block: usize) -> (done: Option<bool>)
        requires
            old(self)@.num_requested < usize::MAX,
        ensures
            if piece < old(self)@.blocks.len() && block < old(self)@.blocks[piece as int].len() {
                done == Some(true) && final(self)@ == old(self)@.asked_for(
                    piece as int,
                    block as int,
                )
            } else {
                done is None && final(self)@ == old(self)@
            },
            old(self)@.wf() ==> final(self)@.wf(),
    {
        if piece >= self.blocks.len() {
            return None;
        }
        if block >= self.blocks[piece].len() {
            None
        } else {
            self.mark_requested(piece, block);
            Some(true)
        }
    }

    /// Marks a block that exists as asked for.
    fn mark_requested(&mut self, piece: usize, block: usize)
        requires
            piece < old(self)@.blocks.len(),
            block < old(self)@.blocks[piece as int].len(),
            old(self)@.num_requested < usize::MAX,
        ensures
            final(self)@ == old(self)@.asked_for(piece as int, block as int),
            old(self)@.wf() ==> final(self)@.wf(),
    {
        let ghost before = self@.blocks;
        self.blocks[piece][block] = BlockState::Requested;
        self.num_requested = self.num_requested + 1;
        proof {
            let row = before[piece as int].update(block as int, BlockState::Requested);
            assert(self@.blocks =~~= before.update(piece as int, row));
            pieces::outstanding_after_block(before[piece as int], block as int, BlockState::Requested);
            pieces::outstanding_after_row(before, piece as int, row);
        }
    }

    /// Marks a block as received. Returns nothing when there is no such block.
    pub fn finish_request(&mut self, piece: usize, block: usize) -> (done: Option<bool>)
        requires
            old(self)@.wf(),
        ensures
            final(self)@.wf(),
            final(self)@ == old(self)@.block_received(piece as int, block as int),
            done == (if piece < old(self)@.blocks.len() && block < old(
                self,
            )@.blocks[piece as int].len() {
                Some(true)
            } else {
                None
            }),
    {
        if piece >= self.blocks.len() {
            return None;
        }
        if block >= self.blocks[piece].len() {
            return None;
        }
        let ghost before = self@.blocks;
        let ghost row = before[piece as int].update(block as int, BlockState::Completed);
        proof {
            pieces::outstanding_after_block(before[piece as int], block as int, BlockState::Completed);
            pieces::outstanding_after_row(before, piece as int, row);
        }
        if self.blocks[piece][block] == BlockState::Requested {
            self.num_requested = self.num_requested - 1;
        }
        self.blocks[piece][block] = BlockState::Completed;
        assert(self@.blocks =~~= before.update(piece as int, row));
        Some(true)
    }

    /// The pairs that a request may draw: the blocks of the listed pieces that have not been asked
    /// for.
    pub fn offers(&self, listed: &Vec<usize>) -> (pairs: Vec<(usize, usize)>)
        requires
            self@.can_draw(listed@),
        ensures
            pairs@ == self@.offers(listed@),
    {
        let mut pairs: Vec<(usize, usize)> = Vec::new();
        let mut position: usize = 0;
        while position < listed.len()
            invariant
                position <= listed@.len(),
                forall|i: int| 0 <= i < listed@.len() ==> listed@[i] < self@.blocks.len(),
                self.blocks.len() == self@.blocks.len(),
                pairs@ == offered(self@.blocks, listed@, position as int),
            decreases listed@.len() - position,
        {
            let piece: usize = listed[position];
            let ghost row = self@.blocks[piece as int];
            let ghost before = pairs@;
            let mut block: usize = 0;
            while block < self.blocks[piece].len()
                invariant
                    piece < self@.blocks.len(),
                    self.blocks.len() == self@.blocks.len(),
                    row == self@.blocks[piece as int],
                    block <= row.len(),
                    pairs@ =~= before + offered_by_piece(row, piece, block as int),
                decreases row.len() - block,
            {
                if self.blocks[piece][block] == BlockState::UnRequested {
                    pairs.push((piece, block));
                }
                block = block + 1;
            }
            position = position + 1;
        }
        pairs
    }

    /// Marks the pair that has been drawn as asked for.
    pub fn request_drawn(&mut self, drawn: Option<(usize, usize)>) -> (answer: Option<(u32, u32)>)
        requires
            drawn matches Some(pair) ==> in_grid(old(self)@.blocks, pair),
            old(self)@.num_requested < old(self)@.request_limit,
        ensures
            answer == (match drawn {
                Some(pair) => Some((pair.0 as u32, pair.1 as u32)),
                None => None,
            }),
            final(self)@ == (match drawn {
                Some(pair) => old(self)@.asked_for(pair.0 as int, pair.1 as int),
                None => old(self)@,
            }),
            old(self)@.wf() ==> final(self)@.wf(),
    {
        match drawn {
            Some(pair) => {
                self.mark_requested(pair.0, pair.1);
                Some((pair.0 as u32, pair.1 as u32))
            },
            None => None,
        }
    }

    /// Asks for a block drawn at random among those of the listed pieces that have not been asked
    /// for.
    pub fn request_new(&mut self, pieces: Vec<usize>) -> (answer: Option<(u32, u32)>)
        requires
            old(self)@.can_draw(pieces@),
        ensures
            old(self)@.draws(pieces@, final(self)@, answer),
            old(self)@.wf() ==> final(self)@.wf(),
    {
        if self.num_requested >= self.request_limit {
            return None;
        }
        let offers = self.offers(&pieces);
        let drawn = random::pick(offers.as_slice());
        proof {
            assert forall|p: int| 0 <= p < self@.blocks.len() implies #[trigger] self@.blocks[p].len()
                <= usize::MAX by {
                assert(self.blocks@[p].len() == self.blocks@[p]@.len());
            }
            if let Some(pair) = drawn {
                offers_are_blocks_of_listed_pieces(self@, pieces@, pair);
                assert(self@.offers(pieces@).contains(pair));
            }
        }
        self.request_drawn(drawn)
    }

    /// Marks every block of a piece as received. Returns nothing when there is no such piece.
    pub fn complete_piece(&mut self, piece: u32) -> (done: Option<bool>)
        requires
            old(self)@.wf(),
        ensures
            final(self)@.wf(),
            final(self)@ == old(self)@.piece_received(piece as int),
            done == (if piece < old(self)@.blocks.len() {
                Some(true)
            } else {
                None
            }),
    {
        let p: usize = piece as usize;
        if p >= self.blocks.len() {
            return None;
        }
        let ghost before = self@.blocks;
        let ghost row = before[p as int];
        proof {
            pieces::outstanding_after_row(before, p as int, row);
        }
        self.num_requested = pieces::complete_row(&mut self.blocks[p], self.num_requested);
        proof {
            let done = pieces::uniform(row.len() as int, BlockState::Completed);
            assert(self@.blocks =~= before.update(p as int, done));
            pieces::none_outstanding(done);
            pieces::outstanding_after_row(before, p as int, done);
        }
        Some(true)
    }
}

proof fn offers_of_piece(row: Seq<BlockState>, piece: usize, upto: int, pair: (usize, usize))
    requires
        0 <= upto <= row.len() <= usize::MAX,
    ensures
        offered_by_piece(row, piece, upto).contains(pair) <==> pair.0 == piece && pair.1 < upto
            && row[pair.1 as int] == BlockState::UnRequested,
    decreases upto,
{
    if upto > 0 {
        offers_of_piece(row, piece, upto - 1, pair);
        let before = offered_by_piece(row, piece, upto - 1);
        let all = offered_by_piece(row, piece, upto);
        if before.contains(pair) {
            assert(all[before.index_of(pair)] == pair);
        }
        if row[upto - 1] == BlockState::UnRequested {
            assert(all[all.len() - 1] == (piece, (upto - 1) as usize));
        }
        if all.contains(pair) && all.index_of(pair) < before.len() {
            assert(before[all.index_of(pair)] == pair);
        }
    }
}

proof fn offers_of_list(
    grid: Seq<Seq<BlockState>>,
    listed: Seq<usize>,
    upto: int,
    pair: (usize, usize),
)
    requires
        0 <= upto <= listed.len(),
        forall|i: int| 0 <= i < listed.len() ==> listed[i] < grid.len(),
        forall|p: int| 0 <= p < grid.len() ==> #[trigger] grid[p].len() <= usize::MAX,
    ensures
        offered(grid, listed, upto).contains(pair) <==> listed.take(upto).contains(pair.0)
            && in_grid(grid, pair) && grid[pair.0 as int][pair.1 as int] == BlockState::UnRequested,
    decreases upto,
{
    if upto > 0 {
        offers_of_list(grid, listed, upto - 1, pair);
        let piece = listed[upto - 1];
        let row = grid[piece as int];
        offers_of_piece(row, piece, row.len() as int, pair);
        let before = offered(grid, listed, upto - 1);
        let new = offered_by_piece(row, piece, row.len() as int);
        let all = offered(grid, listed, upto);
        if before.contains(pair) {
            assert(all[before.index_of(pair)] == pair);
        }
        if new.contains(pair) {
            assert(all[before.len() + new.index_of(pair)] == pair);
        }
        if all.contains(pair) {
            let i = all.index_of(pair);
            if i < before.len() {
                assert(before[i] == pair);
            } else {
                assert(new[i - before.len()] == pair);
            }
        }
        if listed.take(upto - 1).contains(pair.0) {
            assert(listed.take(upto)[listed.take(upto - 1).index_of(pair.0)] == pair.0);
        }
        assert(listed.take(upto)[upto - 1] == piece);
        if listed.take(upto).contains(pair.0) {
            let i = listed.take(upto).index_of(pair.0);
            if i < upto - 1 {
                assert(listed.take(upto - 1)[i] == pair.0);
            }
        }
    }
}

/// The blocks that may be drawn are exactly those of the listed pieces that have not been asked for.
pub proof fn offers_are_blocks_of_listed_pieces(
    model: PoolModel,
    listed: Seq<usize>,
    pair: (usize, usize),
)
    requires
        model.can_draw(listed),
        forall|p: int|
            0 <= p < model.blocks.len() ==> #[trigger] model.blocks[p].len() <= usize::MAX,
    ensures
        model.offers(listed).contains(pair) <==> listed.contains(pair.0) && in_grid(
            model.blocks,
            pair,
        ) && model.blocks[pair.0 as int][pair.1 as int] == BlockState::UnRequested,
{
    offers_of_list(model.blocks, listed, listed.len() as int, pair);
    assert(listed.take(listed.len() as int) =~= listed);
}

/// A request is for a block that exists, of a piece in the list, that had not been asked for.
pub proof fn drawn_blocks_are_new(
    before: PoolModel,
    listed: Seq<usize>,
    after: PoolModel,
    found: Option<(u32, u32)>,
)
    requires
        before.can_draw(listed),
        before.draws(listed, after, found),
        before.blocks.len() <= u32::MAX + 1,
        forall|p: int|
            0 <= p < before.blocks.len() ==> (#[trigger] before.blocks[p]).len() <= u32::MAX + 1
                && before.blocks[p].len() <= usize::MAX,
    ensures
        found matches Some((piece, block)) ==> {
            &&& listed.contains(piece as usize)
            &&& piece < before.blocks.len()
            &&& block < before.blocks[piece as int].len()
            &&& before.blocks[piece as int][block as int] == BlockState::UnRequested
            &&& after == before.asked_for(piece as int, block as int)
        },
{
    if let Some(found) = found {
        let pair = choose|pair: (usize, usize)| #[trigger]
            before.offers(listed).contains(pair) && found == (pair.0 as u32, pair.1 as u32)
                && after == before.asked_for(pair.0 as int, pair.1 as int);
        offers_are_blocks_of_listed_pieces(before, listed, pair);
    }
}

/// To report a block as received changes that block and no other, and a request is then unanswered
/// no more exactly where the block was asked for. To ask for a block likewise changes that block
/// alone, and one more request is unanswered.
pub proof fn blocks_of_a_pool_are_marked(
    pool: PoolModel,
    piece: int,
    block: int,
    other_piece: int,
    other_block: int,
)
    requires
        pool.wf(),
        0 <= piece,
        0 <= block,
        0 <= other_piece < pool.blocks.len(),
        0 <= other_block < pool.blocks[other_piece].len(),
    ensures
        ({
            let after = pool.block_received(piece, block);
            let asked = pool.asked_for(piece, block);
            let is_there = piece < pool.blocks.len() && block < pool.blocks[piece].len();
            let answered = is_there && pool.blocks[piece][block] == BlockState::Requested;
            let same = other_piece == piece && other_block == block;
            let before = pool.blocks[other_piece][other_block];
            &&& after.blocks.len() == pool.blocks.len()
            &&& after.blocks[other_piece].len() == pool.blocks[other_piece].len()
            &&& after.blocks[other_piece][other_block] == (if same {
                BlockState::Completed
            } else {
                before
            })
            &&& after.num_requested + (if answered { 1int } else { 0 }) == pool.num_requested
            &&& after == (PoolModel {
                blocks: after.blocks,
                num_requested: after.num_requested,
                ..pool
            })
            &&& is_there ==> {
                &&& asked.blocks[other_piece][other_block] == (if same {
                    BlockState::Requested
                } else {
                    before
                })
                &&& asked.num_requested == pool.num_requested + 1
                &&& asked == (PoolModel {
                    blocks: asked.blocks,
                    num_requested: asked.num_requested,
                    ..pool
                })
            }
        }),
{
    if piece < pool.blocks.len() && block < pool.blocks[piece].len() {
        let row = pool.blocks[piece];
        pieces::outstanding_after_row(pool.blocks, piece, row);
        pieces::outstanding_after_block(row, block, BlockState::Completed);
    }
}

/// To report a piece as received changes the blocks of that piece and no others, and the requests for
/// its blocks are then unanswered no more. A piece that does not exist changes nothing.
pub proof fn pieces_of_a_pool_are_marked(
    pool: PoolModel,
    piece: int,
    other_piece: int,
    other_block: int,
)
    requires
        pool.wf(),
        0 <= piece,
        0 <= other_piece < pool.blocks.len(),
        0 <= other_block < pool.blocks[other_piece].len(),
    ensures
        ({
            let after = pool.piece_received(piece);
            &&& after.blocks.len() == pool.blocks.len()
            &&& after.blocks[other_piece].len() == pool.blocks[other_piece].len()
            &&& after.blocks[other_piece][other_block] == (if other_piece == piece {
                BlockState::Completed
            } else {
                pool.blocks[other_piece][other_block]
            })
            &&& pool.num_requested - after.num_requested == pieces::outstanding(pool.blocks)
                - pieces::outstanding(after.blocks)
            &&& after == (PoolModel {
                blocks: after.blocks,
                num_requested: after.num_requested,
                ..pool
            })
        }),
{
    if piece < pool.blocks.len() {
        let row = pool.blocks[piece];
        let new = pieces::uniform(row.len() as int, BlockState::Completed);
        pieces::none_outstanding(new);
        pieces::outstanding_after_row(pool.blocks, piece, new);
    }
}

/// While fewer requests are unanswered than may be, a block is drawn wherever a listed piece has one
/// that has not been asked for, and only there. While as many are unanswered as may be, none is. Where
/// none is drawn nothing changes.
pub proof fn blocks_are_drawn_where_there_are_any(
    before: PoolModel,
    listed: Seq<usize>,
    after: PoolModel,
    found: Option<(u32, u32)>,
)
    requires
        before.can_draw(listed),
        before.draws(listed, after, found),
        forall|p: int|
            0 <= p < before.blocks.len() ==> #[trigger] before.blocks[p].len() <= usize::MAX,
    ensures
        found is None ==> after == before,
        found is Some <==> before.num_requested < before.request_limit && exists|i: int, b: int|
            0 <= i < listed.len() && 0 <= b < before.blocks[listed[i] as int].len() && #[trigger]
                before.blocks[listed[i] as int][b] == BlockState::UnRequested,
{
    let offers = before.offers(listed);
    if offers.len() > 0 {
        let pair = offers[0];
        assert(offers.contains(pair));
        offers_are_blocks_of_listed_pieces(before, listed, pair);
        let i = listed.index_of(pair.0);
        assert(before.blocks[listed[i] as int][pair.1 as int] == BlockState::UnRequested);
    }
    if found is Some && before.num_requested < before.request_limit {
        let pair = choose|pair: (usize, usize)| #[trigger]
            before.offers(listed).contains(pair) && found == Some((pair.0 as u32, pair.1 as u32))
                && after == before.asked_for(pair.0 as int, pair.1 as int);
        assert(offers.contains(pair));
    }
    if exists|i: int, b: int|
        0 <= i < listed.len() && 0 <= b < before.blocks[listed[i] as int].len() && #[trigger]
            before.blocks[listed[i] as int][b] == BlockState::UnRequested {
        let (i, b) = choose|i: int, b: int|
            0 <= i < listed.len() && 0 <= b < before.blocks[listed[i] as int].len() && #[trigger]
                before.blocks[listed[i] as int][b] == BlockState::UnRequested;
        let pair = (listed[i], b as usize);
        assert(listed.contains(pair.0));
        offers_are_blocks_of_listed_pieces(before, listed, pair);
        assert(offers.contains(pair));
    }
}

/// How many blocks there are in the rows of a grid.
pub open spec fn blocks_of(grid: Seq<Seq<BlockState>>) -> nat
    decreases grid.len(),
{
    if grid.len() == 0 {
        0
    } else {
        blocks_of(grid.drop_last()) + grid.last().len()
    }
}

/// Rows of one length hold that many blocks each.
proof fn blocks_of_equal_rows(grid: Seq<Seq<BlockState>>, length: int)
    requires
        length >= 0,
        forall|p: int| 0 <= p < grid.len() ==> #[trigger] grid[p].len() == length,
    ensures
        blocks_of(grid) == grid.len() * length,
    decreases grid.len(),
{
    if grid.len() > 0 {
        let front = grid.drop_last();
        assert forall|p: int| 0 <= p < front.len() implies #[trigger] front[p].len() == length by {
            assert(front[p] == grid[p]);
        }
        blocks_of_equal_rows(front, length);
        let n = grid.len() as int;
        assert((n - 1) * length + length == n * length) by (nonlinear_arith);
        assert(grid.last() == grid[n - 1]);
    } else {
        assert(0 * length == 0);
    }
}

/// A pool begins with no request unanswered, of which it allows three at once, and counts as many
/// blocks as its rows hold.
pub proof fn new_pools_count_their_blocks(total: int, piece_length: int)
    requires
        total > 0,
        piece_length > 0,
    ensures
        ({
            let pool = fresh_pool(total, piece_length);
            &&& pool.num_requested == 0
            &&& pool.num_downloaded == 0
            &&& pool.request_limit == 3
            &&& pool.num_total_blocks == blocks_of(pool.blocks)
        }),
{
    let grid = pieces::fresh_grid(total, piece_length);
    let count = blocks::pieces_in(total, piece_length);
    blocks::ceil_div_covers(total, piece_length);
    blocks::ceil_div_covers(piece_length, blocks::BLOCK_SIZE as int);
    let last = blocks::last_piece_size(total, piece_length);
    blocks::pieces_tile_torrent(count - 1, total, piece_length);
    blocks::ceil_div_covers(last, blocks::BLOCK_SIZE as int);
    let front = grid.drop_last();
    let standard = blocks::blocks_in(piece_length);
    assert forall|p: int| 0 <= p < front.len() implies #[trigger] front[p].len() == standard by {
        assert(front[p] == grid[p]);
    }
    blocks_of_equal_rows(front, standard);
    assert(grid.last().len() == blocks::blocks_in(last));
    assert((count - 1) * standard >= 0) by (nonlinear_arith)
        requires
            count >= 1,
            standard >= 0,
    ;
}

} // verus!
