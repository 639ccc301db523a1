//! Which blocks of which pieces have been asked for and received.
use crate::bits;
use crate::bits::PieceBits;
use crate::peer::blocks;
use crate::peer::history;
use crate::peer::BlockState;
use crate::random;
use vstd::prelude::*;

verus! {

/// The states of the blocks of every piece.
pub type Grid = Seq<Seq<BlockState>>;

/// The contents of a vector of rows.
pub open spec fn grid_of(rows: Seq<Vec<BlockState>>) -> Grid {
    Seq::new(rows.len(), |i: int| rows[i]@)
}

/// A piece of `count` blocks, all in one state.
pub open spec fn uniform(count: int, state: BlockState) -> Seq<BlockState> {
    Seq::new(count as nat, |b: int| state)
}

/// The grid of a torrent of which nothing has been asked for.
pub open spec fn fresh_grid(total: int, piece_length: int) -> Grid {
    Seq::new(
        blocks::pieces_in(total, piece_length) as nat,
        |i: int|
            uniform(
                blocks::blocks_in(blocks::piece_size(i, total, piece_length)),
                BlockState::UnRequested,
            ),
    )
}

/// How many blocks of a piece have been asked for and not received.
pub open spec fn outstanding_in_piece(row: Seq<BlockState>) -> nat
    decreases row.len(),
{
    if row.len() == 0 {
        0
    } else {
        outstanding_in_piece(row.drop_last()) + if row.last() == BlockState::Requested {
            1nat
        } else {
            0nat
        }
    }
}

/// How many blocks have been asked for and not received.
pub open spec fn outstanding(grid: Grid) -> nat
    decreases grid.len(),
{
    if grid.len() == 0 {
        0
    } else {
        outstanding(grid.drop_last()) + outstanding_in_piece(grid.last())
    }
}

/// The grid after a change of one block.
pub open spec fn with_block(grid: Grid, piece: int, block: int, state: BlockState) -> Grid {
    grid.update(piece, grid[piece].update(block, state))
}

/// The grid after every block of a piece has been received.
pub open spec fn with_piece_completed(grid: Grid, piece: int) -> Grid {
    grid.update(piece, uniform(grid[piece].len() as int, BlockState::Completed))
}

/// `block` is the first one of a piece that has not been asked for.
pub open spec fn is_first_unrequested(row: Seq<BlockState>, block: int) -> bool {
    &&& 0 <= block < row.len()
    &&& row[block] == BlockState::UnRequested
    &&& forall|b: int| 0 <= b < block ==> row[b] != BlockState::UnRequested
}

/// Some block of a piece has not been asked for.
pub open spec fn has_unrequested(row: Seq<BlockState>) -> bool {
    exists|b: int| 0 <= b < row.len() && row[b] == BlockState::UnRequested
}

/// The blocks among the first `upto` of a piece that are asked for, in order.
pub open spec fn pending_in_piece(row: Seq<BlockState>, piece: int, upto: int) -> Seq<(u32, u32)>
    decreases upto,
{
    if upto <= 0 {
        Seq::empty()
    } else {
        let before = pending_in_piece(row, piece, upto - 1);
        if row[upto - 1] == BlockState::Requested {
            before.push((piece as usize as u32, (upto - 1) as usize as u32))
        } else {
            before
        }
    }
}

/// The blocks of the first `upto` pieces that are asked for, piece by piece.
pub open spec fn pending(grid: Grid, upto: int) -> Seq<(u32, u32)>
    decreases upto,
{
    if upto <= 0 {
        Seq::empty()
    } else {
        pending(grid, upto - 1) + pending_in_piece(grid[upto - 1], upto - 1, grid[upto - 1].len() as int)
    }
}

/// What a change of one block does to the number of outstanding blocks of its piece.
pub proof fn outstanding_after_block(row: Seq<BlockState>, block: int, state: BlockState)
    requires
        0 <= block < row.len(),
    ensures
        outstanding_in_piece(row.update(block, state)) == outstanding_in_piece(row) + (if state
            == BlockState::Requested {
            1int
        } else {
            0
        }) - (if row[block] == BlockState::Requested {
            1int
        } else {
            0
        }),
    decreases row.len(),
{
    let after = row.update(block, state);
    if block == row.len() - 1 {
        assert(after.drop_last() =~= row.drop_last());
    } else {
        assert(after.drop_last() =~= row.drop_last().update(block, state));
        outstanding_after_block(row.drop_last(), block, state);
    }
}

/// What a change of one piece does to the number of outstanding blocks.
pub proof fn outstanding_after_row(grid: Grid, piece: int, row: Seq<BlockState>)
    requires
        0 <= piece < grid.len(),
    ensures
        outstanding(grid.update(piece, row)) == outstanding(grid) + outstanding_in_piece(row)
            - outstanding_in_piece(grid[piece]),
        outstanding_in_piece(grid[piece]) <= outstanding(grid),
    decreases grid.len(),
{
    let after = grid.update(piece, row);
    if piece == grid.len() - 1 {
        assert(after.drop_last() =~= grid.drop_last());
    } else {
        assert(after.drop_last() =~= grid.drop_last().update(piece, row));
        outstanding_after_row(grid.drop_last(), piece, row);
    }
}

/// A piece of which no block is asked for has none outstanding.
pub proof fn none_outstanding(row: Seq<BlockState>)
    requires
        forall|b: int| 0 <= b < row.len() ==> row[b] != BlockState::Requested,
    ensures
        outstanding_in_piece(row) == 0,
    decreases row.len(),
{
    if row.len() > 0 {
        none_outstanding(row.drop_last());
    }
}

/// A grid of which no block is asked for has none outstanding.
pub proof fn none_outstanding_in_grid(grid: Grid)
    requires
        forall|i: int, b: int|
            0 <= i < grid.len() && 0 <= b < grid[i].len() ==> #[trigger] grid[i][b]
                != BlockState::Requested,
    ensures
        outstanding(grid) == 0,
    decreases grid.len(),
{
    if grid.len() > 0 {
        let front = grid.drop_last();
        assert forall|i: int, b: int| 0 <= i < front.len() && 0 <= b < front[i].len() implies #[trigger] front[i][b]
            != BlockState::Requested by {
            assert(front[i][b] == grid[i][b]);
        }
        none_outstanding_in_grid(front);
        assert forall|b: int| 0 <= b < grid.last().len() implies grid.last()[b]
            != BlockState::Requested by {
            assert(grid[grid.len() - 1][b] != BlockState::Requested);
        }
        none_outstanding(grid.last());
    }
}

/// Lays out a torrent of which nothing has been asked for.
pub fn fresh_blocks(file_length: u64, piece_length: u64) -> (rows: Vec<Vec<BlockState>>)
    requires
        file_length > 0,
        piece_length > 0,
        blocks::pieces_in(file_length as int, piece_length as int) <= usize::MAX,
        blocks::blocks_in(piece_length as int) <= usize::MAX,
    ensures
        grid_of(rows@) == fresh_grid(file_length as int, piece_length as int),
        outstanding(grid_of(rows@)) == 0,
{
    proof {
        blocks::ceil_div_covers(file_length as int, piece_length as int);
    }
    let num_pieces: u64 = blocks::div_ceil(file_length, piece_length);
    let last_piece_begin: u64 = (num_pieces - 1) * piece_length;
    let last_piece_size: u64 = file_length - last_piece_begin;
    let last_piece_num_blocks: u64 = blocks::div_ceil(last_piece_size, blocks::BLOCK_SIZE as u64);
    let standard_num_blocks: u64 = blocks::div_ceil(piece_length, blocks::BLOCK_SIZE as u64);
    let ghost total = file_length as int;
    let ghost length = piece_length as int;
    let mut rows: Vec<Vec<BlockState>> = Vec::new();
    let mut i: u64 = 0;
    while i < num_pieces - 1
        invariant
            num_pieces == blocks::pieces_in(total, length),
            num_pieces > 0,
            num_pieces <= usize::MAX,
            standard_num_blocks == blocks::blocks_in(length),
            standard_num_blocks <= usize::MAX,
            i <= num_pieces - 1,
            rows@.len() == i,
            forall|k: int|
                0 <= k < i ==> (#[trigger] rows@[k])@ =~= uniform(
                    blocks::blocks_in(blocks::piece_size(k, total, length)),
                    BlockState::UnRequested,
                ),
        decreases num_pieces - i,
    {
        let row = vec![BlockState::UnRequested; standard_num_blocks as usize];
        rows.push(row);
        i = i + 1;
    }
    assert(last_piece_num_blocks <= standard_num_blocks) by {
        assert(last_piece_size <= piece_length);
    }
    let row = vec![BlockState::UnRequested; last_piece_num_blocks as usize];
    rows.push(row);
    proof {
        assert(grid_of(rows@) =~~= fresh_grid(total, length));
        none_outstanding_in_grid(grid_of(rows@));
    }
    rows
}

/// The row of the first block that has not been asked for, if any.
fn find_unrequested(row: &Vec<BlockState>) -> (block: Option<usize>)
    ensures
        match block {
            Some(b) => is_first_unrequested(row@, b as int),
            None => !has_unrequested(row@),
        },
{
    let mut b: usize = 0;
    while b < row.len()
        invariant
            b <= row@.len(),
            forall|k: int| 0 <= k < b ==> row@[k] != BlockState::UnRequested,
        decreases row@.len() - b,
    {
        if row[b] == BlockState::UnRequested {
            return Some(b);
        }
        b = b + 1;
    }
    None
}

/// Marks every block of a piece as received. Returns how many requests are then unanswered.
pub fn complete_row(row: &mut Vec<BlockState>, num_requested: usize) -> (left: usize)
    requires
        outstanding_in_piece(old(row)@) <= num_requested,
    ensures
        final(row)@ == uniform(old(row)@.len() as int, BlockState::Completed),
        left == num_requested - outstanding_in_piece(old(row)@),
{
    let ghost before = row@;
    let mut left: usize = num_requested;
    let mut block: usize = 0;
    while block < row.len()
        invariant
            block <= row@.len(),
            row@.len() == before.len(),
            outstanding_in_piece(before) <= num_requested,
            forall|b: int| 0 <= b < block ==> row@[b] == BlockState::Completed,
            left == num_requested - outstanding_in_piece(before) + outstanding_in_piece(row@),
        decreases row@.len() - block,
    {
        proof {
            outstanding_after_block(row@, block as int, BlockState::Completed);
        }
        if row[block] == BlockState::Requested {
            left = left - 1;
        }
        row[block] = BlockState::Completed;
        block = block + 1;
    }
    assert(row@ =~= uniform(before.len() as int, BlockState::Completed));
    proof {
        none_outstanding(row@);
    }
    left
}

/// The pieces and blocks of a session, seen from outside.
#[verifier::ext_equal]
pub struct TrackerModel {
    /// The state of every block.
    pub blocks: Grid,
    /// How many requests count as unanswered.
    pub num_requested: nat,
    /// How many requests may be unanswered at once.
    pub pipeline_len: nat,
    /// The piece whose blocks are being asked for.
    pub requested: Option<usize>,
}

impl TrackerModel {
    /// Every block that is asked for is counted.
    pub open spec fn wf(self) -> bool {
        outstanding(self.blocks) <= self.num_requested
    }

    /// The count of unanswered requests is the number of blocks that are asked for.
    pub open spec fn counts_exactly(self) -> bool {
        outstanding(self.blocks) == self.num_requested
    }

    /// A piece that exists and has a block that has not been asked for.
    pub open spec fn requestable(self, piece: usize) -> bool {
        piece < self.blocks.len() && has_unrequested(self.blocks[piece as int])
    }

    /// As many requests are unanswered as may be.
    pub open spec fn saturated(self) -> bool {
        self.num_requested >= self.pipeline_len
    }

    /// A piece has to be chosen: there is none whose blocks are being asked for, or all of its
    /// blocks have been.
    pub open spec fn needs_piece(self) -> bool {
        match self.requested {
            None => true,
            Some(piece) => piece < self.blocks.len() && !has_unrequested(
                self.blocks[piece as int],
            ),
        }
    }

    /// The first block of `piece` that had not been asked for has now been, and nothing else has
    /// changed but that `piece` is the one whose blocks are being asked for.
    pub open spec fn asked_for(self, piece: usize, after: Self, answer: Option<(u32, u32)>) -> bool {
        exists|block: int|
            {
                &&& #[trigger] is_first_unrequested(self.blocks[piece as int], block)
                &&& after == (TrackerModel {
                    blocks: with_block(self.blocks, piece as int, block, BlockState::Requested),
                    num_requested: self.num_requested + 1,
                    pipeline_len: self.pipeline_len,
                    requested: Some(piece),
                })
                &&& answer == Some((piece as u32, block as usize as u32))
            }
    }

    /// No piece is chosen, and nothing is asked for.
    pub open spec fn gave_up(self, after: Self, answer: Option<(u32, u32)>) -> bool {
        after == (TrackerModel { requested: None, ..self }) && answer is None
    }

    /// The tracker after a block has been received. A block that does not exist changes nothing.
    pub open spec fn block_received(self, piece: int, block: int) -> Self {
        if piece < self.blocks.len() && block < self.blocks[piece].len() {
            TrackerModel {
                blocks: with_block(self.blocks, piece, block, BlockState::Completed),
                num_requested: (self.num_requested - if self.blocks[piece][block]
                    == BlockState::Requested {
                    1int
                } else {
                    0
                }) as nat,
                ..self
            }
        } else {
            self
        }
    }

    /// The tracker after a whole piece has been received. A piece that does not exist changes
    /// nothing.
    pub open spec fn piece_received(self, piece: int) -> Self {
        if piece < self.blocks.len() {
            TrackerModel {
                blocks: with_piece_completed(self.blocks, piece),
                num_requested: (self.num_requested - outstanding_in_piece(
                    self.blocks[piece],
                )) as nat,
                ..self
            }
        } else {
            self
        }
    }

    /// The tracker after all blocks of the listed pieces have been received.
    pub open spec fn list_received(self, listed: Seq<usize>) -> Self {
        TrackerModel {
            blocks: Seq::new(
                self.blocks.len(),
                |p: int|
                    if listed.contains(p as usize) {
                        uniform(self.blocks[p].len() as int, BlockState::Completed)
                    } else {
                        self.blocks[p]
                    },
            ),
            ..self
        }
    }

    /// The tracker after all blocks of the pieces in a set have been received.
    pub open spec fn set_received(self, bitfield: Seq<bool>) -> Self {
        TrackerModel {
            blocks: Seq::new(
                self.blocks.len(),
                |p: int|
                    if p < bitfield.len() && bitfield[p] {
                        uniform(self.blocks[p].len() as int, BlockState::Completed)
                    } else {
                        self.blocks[p]
                    },
            ),
            ..self
        }
    }

    /// What a request may do, given the pieces that the peer has.
    pub open spec fn requests(
        self,
        pieces: Seq<usize>,
        after: Self,
        answer: Option<(u32, u32)>,
    ) -> bool {
        if self.saturated() {
            after == self && answer is None
        } else if self.needs_piece() {
            if exists|i: int| 0 <= i < pieces.len() && self.requestable(pieces[i]) {
                exists|i: int|
                    0 <= i < pieces.len() && self.requestable(#[trigger] pieces[i])
                        && self.asked_for(pieces[i], after, answer)
            } else {
                self.gave_up(after, answer)
            }
        } else if self.requested->0 < self.blocks.len() {
            self.asked_for(self.requested->0, after, answer)
        } else {
            after == self && answer is None
        }
    }
}

/// Follows the blocks of a torrent through a session with one peer.
#[derive(Debug)]
pub struct PieceTracker {
    num_requested: usize,
    pipeline_len: usize,
    blocks: Vec<Vec<BlockState>>,
    requested: Option<usize>,
}

impl View for PieceTracker {
    type V = TrackerModel;

    closed spec fn view(&self) -> TrackerModel {
        TrackerModel {
            blocks: grid_of(self.blocks@),
            num_requested: self.num_requested as nat,
            pipeline_len: self.pipeline_len as nat,
            requested: self.requested,
        }
    }
}

impl PieceTracker {
    /// A tracker of a torrent of which nothing has been asked for.
    pub fn from_file_info(file_length: u64, piece_length: u64) -> (tracker: Self)
        requires
            file_length > 0,
            piece_length > 0,
            blocks::pieces_in(file_length as int, piece_length as int) <= usize::MAX,
            blocks::blocks_in(piece_length as int) <= usize::MAX,
        ensures
            tracker@ == history::fresh(file_length as int, piece_length as int),
            tracker@.counts_exactly(),
    {
        let blocks = fresh_blocks(file_length, piece_length);
        PieceTracker { num_requested: 0, pipeline_len: 5, blocks, requested: None }
    }

    /// Marks every block of the listed pieces as received.
    pub fn complete_pieces(&mut self, pieces: &Vec<usize>)
        requires
            forall|i: int| 0 <= i < pieces@.len() ==> pieces@[i] < old(self)@.blocks.len(),
        ensures
            final(self)@ == old(self)@.list_received(pieces@),
            old(self)@.wf() ==> final(self)@.wf(),
    {
        let ghost before = self@.blocks;
        let mut i: usize = 0;
        while i < pieces.len()
            invariant
                i <= pieces@.len(),
                forall|k: int| 0 <= k < pieces@.len() ==> pieces@[k] < before.len(),
                before == old(self)@.blocks,
                self@ == (TrackerModel { blocks: self@.blocks, ..old(self)@ }),
                self@.blocks.len() == before.len(),
                forall|p: usize|
                    p < before.len() ==> #[trigger] self@.blocks[p as int] == (if pieces@.take(
                        i as int,
                    ).contains(p) {
                        uniform(before[p as int].len() as int, BlockState::Completed)
                    } else {
                        before[p as int]
                    }),
                outstanding(self@.blocks) <= outstanding(before),
            decreases pieces@.len() - i,
        {
            let piece: usize = pieces[i];
            let count: usize = self.blocks[piece].len();
            let ghost current = self@.blocks;
            self.blocks[piece] = vec![BlockState::Completed; count];
            proof {
                assert(self@.blocks =~~= with_piece_completed(current, piece as int));
                none_outstanding(uniform(count as int, BlockState::Completed));
                outstanding_after_row(
                    current,
                    piece as int,
                    uniform(count as int, BlockState::Completed),
                );
                let done = pieces@.take(i as int);
                assert(pieces@.take(i + 1) =~= done.push(piece));
                assert forall|p: usize| p < before.len() implies #[trigger] self@.blocks[p as int] == (
                if pieces@.take(i + 1).contains(p) {
                    uniform(before[p as int].len() as int, BlockState::Completed)
                } else {
                    before[p as int]
                }) by {
                    assert(current[p as int].len() == before[p as int].len());
                    if p == piece {
                        assert(done.push(piece)[i as int] == piece);
                    } else if done.contains(p) {
                        let k = done.index_of(p);
                        assert(done.push(piece)[k] == p);
                    }
                }
            }
            i = i + 1;
        }
        assert(pieces@.take(i as int) =~= pieces@);
        proof {
            assert forall|p: int| 0 <= p < before.len() implies #[trigger] self@.blocks[p] == old(
                self,
            )@.list_received(pieces@).blocks[p] by {
                assert(self.blocks.len() == self@.blocks.len());
                let q = p as usize;
                assert(self@.blocks[q as int] == self@.blocks[p]);
            }
            assert(self@ =~= old(self)@.list_received(pieces@));
        }
    }

    /// Marks every block of the pieces in `bitfield` as received.
    pub fn update(&mut self, bitfield: &PieceBits)
        requires
            forall|p: int|
                0 <= p < bitfield@.len() && bitfield@[p] ==> p < old(self)@.blocks.len(),
        ensures
            final(self)@ == old(self)@.set_received(bitfield@),
            old(self)@.wf() ==> final(self)@.wf(),
    {
        let len: usize = bitfield.len();
        let pieces = bitfield.iter_ones();
        proof {
            bits::positions_are_those_of_ones(bitfield@);
            assert forall|i: int| 0 <= i < pieces@.len() implies pieces@[i]
                < self@.blocks.len() by {
                assert(pieces@.contains(pieces@[i]));
            }
        }
        self.complete_pieces(&pieces);
        proof {
            let before = old(self)@;
            assert forall|p: int| 0 <= p < before.blocks.len() implies #[trigger] self@.blocks[p]
                == before.set_received(bitfield@).blocks[p] by {
                assert(old(self).blocks.len() == before.blocks.len());
                let q = p as usize;
                assert(pieces@.contains(q) <==> (q < bitfield@.len() && bitfield@[q as int]));
            }
            assert(self@ =~= before.set_received(bitfield@));
        }
    }

    /// The listed pieces of which a block can still be asked for, in their order.
    pub fn requestable_pieces(&self, pieces: &Vec<usize>) -> (requestable: Vec<usize>)
        ensures
            requestable@ == pieces@.filter(|piece: usize| self@.requestable(piece)),
    {
        let ghost wanted = |piece: usize| self@.requestable(piece);
        let mut requestable: Vec<usize> = Vec::new();
        let mut i: usize = 0;
        while i < pieces.len()
            invariant
                i <= pieces@.len(),
                wanted == (|piece: usize| self@.requestable(piece)),
                requestable@ == pieces@.take(i as int).filter(wanted),
            decreases pieces@.len() - i,
        {
            let piece: usize = pieces[i];
            proof {
                let next = pieces@.take(i + 1);
                assert(next.drop_last() =~= pieces@.take(i as int));
                reveal(Seq::filter);
                assert(next.filter(wanted) == (if wanted(piece) {
                    next.drop_last().filter(wanted).push(piece)
                } else {
                    next.drop_last().filter(wanted)
                }));
            }
            if piece < self.blocks.len() {
                if find_unrequested(&self.blocks[piece]).is_some() {
                    requestable.push(piece);
                }
            }
            i = i + 1;
        }
        assert(pieces@.take(i as int) =~= pieces@);
        requestable
    }

    /// Whether a piece has to be chosen before the next block can be asked for.
    pub fn needs_piece(&self) -> (needed: bool)
        ensures
            needed == self@.needs_piece(),
    {
        match self.requested {
            None => true,
            Some(piece) => piece < self.blocks.len() && find_unrequested(
                &self.blocks[piece],
            ).is_none(),
        }
    }

    /// Asks for the first block of `piece` that has not been asked for.
    fn ask_for(&mut self, piece: usize) -> (answer: Option<(u32, u32)>)
        requires
            old(self)@.requestable(piece),
            !old(self)@.saturated(),
        ensures
            old(self)@.asked_for(piece, final(self)@, answer),
            old(self)@.wf() ==> final(self)@.wf(),
            old(self)@.counts_exactly() ==> final(self)@.counts_exactly(),
    {
        self.requested = Some(piece);
        match find_unrequested(&self.blocks[piece]) {
            Some(block) => {
                self.blocks[piece][block] = BlockState::Requested;
                self.num_requested = self.num_requested + 1;
                proof {
                    let before = old(self)@.blocks;
                    assert(self@.blocks =~~= with_block(
                        before,
                        piece as int,
                        block as int,
                        BlockState::Requested,
                    ));
                    outstanding_after_block(
                        before[piece as int],
                        block as int,
                        BlockState::Requested,
                    );
                    outstanding_after_row(
                        before,
                        piece as int,
                        before[piece as int].update(block as int, BlockState::Requested),
                    );
                    assert(is_first_unrequested(old(self)@.blocks[piece as int], block as int));
                }
                Some((piece as u32, block as u32))
            },
            None => None,
        }
    }

    /// Goes on with the piece that has been chosen, or gives up when none has.
    pub fn request_chosen(&mut self, chosen: Option<usize>) -> (answer: Option<(u32, u32)>)
        requires
            !old(self)@.saturated(),
            chosen matches Some(piece) ==> old(self)@.requestable(piece),
        ensures
            match chosen {
                Some(piece) => old(self)@.asked_for(piece, final(self)@, answer),
                None => old(self)@.gave_up(final(self)@, answer),
            },
            old(self)@.wf() ==> final(self)@.wf(),
            old(self)@.counts_exactly() ==> final(self)@.counts_exactly(),
    {
        match chosen {
            Some(piece) => self.ask_for(piece),
            None => {
                self.requested = None;
                None
            },
        }
    }

    /// Asks for one more block, as a piece and a block in it. While a piece has blocks that have
    /// not been asked for, the next one of them is taken; then a new piece is picked at random among
    /// those that the peer has and of which something is missing.
    pub fn request(&mut self, pieces: Vec<usize>) -> (answer: Option<(u32, u32)>)
        ensures
            old(self)@.requests(pieces@, final(self)@, answer),
            old(self)@.wf() ==> final(self)@.wf(),
            old(self)@.counts_exactly() ==> final(self)@.counts_exactly(),
    {
        if self.num_requested >= self.pipeline_len {
            return None;
        }
        if self.needs_piece() {
            let candidates = self.requestable_pieces(&pieces);
            let chosen = random::pick(candidates.as_slice());
            proof {
                let wanted = |piece: usize| self@.requestable(piece);
                match chosen {
                    Some(piece) => {
                        pieces@.lemma_filter_contains_rev(wanted, piece);
                        pieces@.lemma_filter_pred(wanted, candidates@.index_of(piece));
                        let i = pieces@.index_of(piece);
                        assert(self@.requestable(pieces@[i]));
                    },
                    None => {
                        assert forall|i: int| 0 <= i < pieces@.len() implies !self@.requestable(
                            pieces@[i],
                        ) by {
                            if self@.requestable(pieces@[i]) {
                                pieces@.lemma_filter_contains(wanted, i);
                            }
                        }
                    },
                }
            }
            return self.request_chosen(chosen);
        }
        match self.requested {
            Some(piece) => {
                if piece < self.blocks.len() {
                    self.ask_for(piece)
                } else {
                    None
                }
            },
            None => None,
        }
    }

    /// Marks a block as received. Returns nothing when there is no such block.
    pub fn mark_block_as_downloaded(&mut self, piece: usize, block: usize) -> (done: Option<bool>)
        requires
            old(self)@.wf(),
        ensures
            final(self)@.wf(),
            old(self)@.counts_exactly() ==> final(self)@.counts_exactly(),
            final(self)@ == old(self)@.block_received(piece as int, block as int),
            done == (if piece < old(self)@.blocks.len() && block < old(
                self,
            )@.blocks[piece as int].len() {
                Some(true)
            } else {
                None
            }),
    {
        if piece >= self.blocks.len() {
            return None;
        }
        if block >= self.blocks[piece].len() {
            return None;
        }
        let ghost before = self@.blocks;
        proof {
            outstanding_after_block(before[piece as int], block as int, BlockState::Completed);
            outstanding_after_row(
                before,
                piece as int,
                before[piece as int].update(block as int, BlockState::Completed),
            );
        }
        if self.blocks[piece][block] == BlockState::Requested {
            self.num_requested = self.num_requested - 1;
        }
        self.blocks[piece][block] = BlockState::Completed;
        assert(self@.blocks =~~= with_block(
            before,
            piece as int,
            block as int,
            BlockState::Completed,
        ));
        Some(true)
    }

    /// Marks every block of a piece as received. Returns nothing when there is no such piece.
    pub fn mark_piece_as_downloaded(&mut self, piece: usize) -> (done: Option<bool>)
        requires
            old(self)@.wf(),
        ensures
            final(self)@.wf(),
            old(self)@.counts_exactly() ==> final(self)@.counts_exactly(),
            final(self)@ == old(self)@.piece_received(piece as int),
            done == (if piece < old(self)@.blocks.len() {
                Some(true)
            } else {
                None
            }),
    {
        if piece >= self.blocks.len() {
            return None;
        }
        let ghost before = self@.blocks;
        let ghost row = before[piece as int];
        proof {
            outstanding_after_row(before, piece as int, row);
        }
        self.num_requested = complete_row(&mut self.blocks[piece], self.num_requested);
        proof {
            let done = uniform(row.len() as int, BlockState::Completed);
            assert(self@.blocks =~= before.update(piece as int, done));
            none_outstanding(done);
            outstanding_after_row(before, piece as int, done);
        }
        Some(true)
    }

    /// The blocks that are asked for and not received, piece by piece.
    pub fn pending_requests(&self) -> (requests: Vec<(u32, u32)>)
        ensures
            requests@ == pending(self@.blocks, self@.blocks.len() as int),
    {
        let mut requests: Vec<(u32, u32)> = Vec::new();
        let mut piece: usize = 0;
        while piece < self.blocks.len()
            invariant
                piece <= self@.blocks.len(),
                self.blocks.len() == self@.blocks.len(),
                requests@ == pending(self@.blocks, piece as int),
            decreases self@.blocks.len() - piece,
        {
            let ghost row = self@.blocks[piece as int];
            let ghost before = requests@;
            let mut block: usize = 0;
            while block < self.blocks[piece].len()
                invariant
                    piece < self@.blocks.len(),
                    self.blocks.len() == self@.blocks.len(),
                    row == self@.blocks[piece as int],
                    block <= row.len(),
                    requests@ =~= before + pending_in_piece(row, piece as int, block as int),
                decreases row.len() - block,
            {
                if self.blocks[piece][block] == BlockState::Requested {
                    requests.push((piece as u32, block as u32));
                }
                block = block + 1;
            }
            piece = piece + 1;
        }
        requests
    }
}

/// No more requests are unanswered at once than the tracker allows.
pub proof fn requests_stay_within_pipeline(
    before: TrackerModel,
    pieces: Seq<usize>,
    after: TrackerModel,
    answer: Option<(u32, u32)>,
)
    requires
        before.requests(pieces, after, answer),
        before.num_requested <= before.pipeline_len,
    ensures
        after.num_requested <= after.pipeline_len,
        after.pipeline_len == before.pipeline_len,
{
}

/// A request asks for a block that had not been asked for before, and changes no other block: what
/// has been received stays received, and what is outstanding stays outstanding.
pub proof fn requests_take_new_blocks(
    before: TrackerModel,
    pieces: Seq<usize>,
    after: TrackerModel,
    answer: Option<(u32, u32)>,
)
    requires
        before.requests(pieces, after, answer),
        before.blocks.len() <= u32::MAX + 1,
        forall|p: int| 0 <= p < before.blocks.len() ==> #[trigger] before.blocks[p].len() <= u32::MAX + 1,
    ensures
        answer is None ==> after.blocks == before.blocks,
        answer matches Some((p, b)) ==> {
            &&& p < before.blocks.len()
            &&& b < before.blocks[p as int].len()
            &&& before.blocks[p as int][b as int] == BlockState::UnRequested
            &&& after.blocks == with_block(
                before.blocks,
                p as int,
                b as int,
                BlockState::Requested,
            )
            &&& after.requested == Some(p as usize)
        },
{
}

/// A piece that has been started is finished before another is picked: as long as it has blocks that
/// have not been asked for and room is left, the next request takes the first of them.
pub proof fn started_pieces_are_finished_first(
    before: TrackerModel,
    pieces: Seq<usize>,
    after: TrackerModel,
    answer: Option<(u32, u32)>,
    piece: usize,
    block: int,
)
    requires
        before.requests(pieces, after, answer),
        before.requested == Some(piece),
        before.requestable(piece),
        !before.saturated(),
        is_first_unrequested(before.blocks[piece as int], block),
        before.blocks[piece as int].len() <= usize::MAX,
    ensures
        answer == Some((piece as u32, block as usize as u32)),
        after.requested == Some(piece),
{
    let found = choose|b: int|
        {
            &&& #[trigger] is_first_unrequested(before.blocks[piece as int], b)
            &&& after == (TrackerModel {
                blocks: with_block(before.blocks, piece as int, b, BlockState::Requested),
                num_requested: before.num_requested + 1,
                pipeline_len: before.pipeline_len,
                requested: Some(piece),
            })
            &&& answer == Some((piece as u32, b as usize as u32))
        };
    if found < block {
        assert(before.blocks[piece as int][found] == BlockState::UnRequested);
    }
    if block < found {
        assert(before.blocks[piece as int][block] == BlockState::UnRequested);
    }
}

/// When a new piece has to be picked, it is one that the peer has.
pub proof fn picked_pieces_come_from_peer(
    before: TrackerModel,
    pieces: Seq<usize>,
    after: TrackerModel,
    answer: Option<(u32, u32)>,
)
    requires
        before.requests(pieces, after, answer),
        before.needs_piece(),
        answer is Some,
    ensures
        pieces.contains(after.requested->0),
        before.requestable(after.requested->0),
{
    let i = choose|i: int|
        0 <= i < pieces.len() && before.requestable(#[trigger] pieces[i]) && before.asked_for(
            pieces[i],
            after,
            answer,
        );
    assert(pieces.contains(pieces[i]));
}

proof fn pending_in_piece_is_counted(row: Seq<BlockState>, piece: int, upto: int)
    requires
        0 <= upto <= row.len(),
    ensures
        pending_in_piece(row, piece, upto).len() == outstanding_in_piece(row.take(upto)),
    decreases upto,
{
    if upto == 0 {
        assert(row.take(0) =~= Seq::empty());
    } else {
        pending_in_piece_is_counted(row, piece, upto - 1);
        assert(row.take(upto).drop_last() =~= row.take(upto - 1));
    }
}

/// As many requests are pending as blocks are asked for and not received.
pub proof fn pending_is_counted(grid: Grid, upto: int)
    requires
        0 <= upto <= grid.len(),
    ensures
        pending(grid, upto).len() == outstanding(grid.take(upto)),
    decreases upto,
{
    if upto == 0 {
        assert(grid.take(0) =~= Seq::empty());
    } else {
        let row = grid[upto - 1];
        pending_is_counted(grid, upto - 1);
        pending_in_piece_is_counted(row, upto - 1, row.len() as int);
        assert(row.take(row.len() as int) =~= row);
        assert(grid.take(upto).drop_last() =~= grid.take(upto - 1));
    }
}

proof fn pending_in_piece_is_outstanding(row: Seq<BlockState>, piece: int, upto: int)
    requires
        0 <= upto <= row.len() <= u32::MAX + 1,
        0 <= piece <= u32::MAX,
    ensures
        forall|p: u32, b: u32|
            #[trigger] pending_in_piece(row, piece, upto).contains((p, b)) <==> (p == piece && b
                < upto && row[b as int] == BlockState::Requested),
    decreases upto,
{
    if upto > 0 {
        pending_in_piece_is_outstanding(row, piece, upto - 1);
        let before = pending_in_piece(row, piece, upto - 1);
        let all = pending_in_piece(row, piece, upto);
        let new = (piece as usize as u32, (upto - 1) as usize as u32);
        assert forall|p: u32, b: u32| #[trigger] all.contains((p, b)) <==> (p == piece && b < upto
            && row[b as int] == BlockState::Requested) by {
            assert(before.contains((p, b)) <==> (p == piece && b < upto - 1 && row[b as int]
                == BlockState::Requested));
            if before.contains((p, b)) {
                let i = before.index_of((p, b));
                assert(all[i] == (p, b));
            }
            if row[upto - 1] == BlockState::Requested {
                assert(all[all.len() - 1] == new);
            }
        }
    }
}

/// The pending requests are exactly the blocks that are asked for and not received, each once.
pub proof fn pending_is_outstanding(grid: Grid, upto: int)
    requires
        0 <= upto <= grid.len() <= u32::MAX + 1,
        forall|p: int| 0 <= p < grid.len() ==> #[trigger] grid[p].len() <= u32::MAX + 1,
    ensures
        pending(grid, upto).len() == outstanding(grid.take(upto)),
        forall|p: u32, b: u32|
            #[trigger] pending(grid, upto).contains((p, b)) <==> (p < upto && b
                < grid[p as int].len() && grid[p as int][b as int] == BlockState::Requested),
    decreases upto,
{
    pending_is_counted(grid, upto);
    if upto > 0 {
        let row = grid[upto - 1];
        pending_is_outstanding(grid, upto - 1);
        pending_in_piece_is_outstanding(row, upto - 1, row.len() as int);
        let before = pending(grid, upto - 1);
        let new = pending_in_piece(row, upto - 1, row.len() as int);
        let all = pending(grid, upto);
        assert forall|p: u32, b: u32| #[trigger] all.contains((p, b)) <==> (p < upto && b
            < grid[p as int].len() && grid[p as int][b as int] == BlockState::Requested) by {
            assert(before.contains((p, b)) <==> (p < upto - 1 && b < grid[p as int].len()
                && grid[p as int][b as int] == BlockState::Requested));
            assert(new.contains((p, b)) <==> (p == upto - 1 && b < row.len() && row[b as int]
                == BlockState::Requested));
            if before.contains((p, b)) {
                let i = before.index_of((p, b));
                assert(all[i] == (p, b));
            }
            if new.contains((p, b)) {
                let i = new.index_of((p, b));
                assert(all[before.len() + i] == (p, b));
            }
            if all.contains((p, b)) {
                let i = all.index_of((p, b));
                if i < before.len() {
                    assert(before[i] == (p, b));
                } else {
                    assert(new[i - before.len()] == (p, b));
                }
            }
        }
    }
}

/// Once a block has been received, no later request asks for it, whatever the peer has.
pub proof fn received_blocks_are_not_requested(
    before: TrackerModel,
    pieces: Seq<usize>,
    after: TrackerModel,
    answer: Option<(u32, u32)>,
    piece: int,
    block: int,
)
    requires
        before.requests(pieces, after, answer),
        0 <= piece < before.blocks.len(),
        0 <= block < before.blocks[piece].len(),
        before.blocks[piece][block] == BlockState::Completed,
    ensures
        after.blocks.len() == before.blocks.len(),
        after.blocks[piece].len() == before.blocks[piece].len(),
        after.blocks[piece][block] == BlockState::Completed,
{
}

/// A torrent of which nothing has been asked for has a row for every piece that begins inside it, and
/// in the row a place for every block of 16384 bytes that begins inside the piece. None of them has
/// been asked for.
pub proof fn fresh_grids_hold_the_torrent(total: int, piece_length: int, piece: int, block: int)
    requires
        total > 0,
        piece_length > 0,
        piece >= 0,
        block >= 0,
    ensures
        ({
            let grid = fresh_grid(total, piece_length);
            &&& piece < grid.len() <==> piece * piece_length < total
            &&& piece < grid.len() ==> {
                &&& block < grid[piece].len() <==> block * 16384 < piece_length && piece
                    * piece_length + block * 16384 < total
                &&& block < grid[piece].len() ==> grid[piece][block] == BlockState::UnRequested
            }
        }),
{
    blocks::pieces_take_what_is_left(piece, total, piece_length);
    blocks::ceil_div_covers(total, piece_length);
    if piece < fresh_grid(total, piece_length).len() {
        let size = blocks::piece_size(piece, total, piece_length);
        blocks::pieces_tile_torrent(piece, total, piece_length);
        blocks::blocks_take_what_is_left(block, size);
        blocks::ceil_div_covers(size, blocks::BLOCK_SIZE as int);
    }
}

/// To report a block as received changes that block and no other, and a request is then unanswered
/// no more exactly where the block was asked for. A block that does not exist changes nothing.
pub proof fn received_blocks_are_marked(
    tracker: TrackerModel,
    piece: int,
    block: int,
    other_piece: int,
    other_block: int,
)
    requires
        tracker.wf(),
        0 <= piece,
        0 <= block,
        0 <= other_piece < tracker.blocks.len(),
        0 <= other_block < tracker.blocks[other_piece].len(),
    ensures
        ({
            let after = tracker.block_received(piece, block);
            let is_there = piece < tracker.blocks.len() && block < tracker.blocks[piece].len();
            let answered = is_there && tracker.blocks[piece][block] == BlockState::Requested;
            &&& after.blocks.len() == tracker.blocks.len()
            &&& after.blocks[other_piece].len() == tracker.blocks[other_piece].len()
            &&& after.blocks[other_piece][other_block] == (if other_piece == piece && other_block
                == block {
                BlockState::Completed
            } else {
                tracker.blocks[other_piece][other_block]
            })
            &&& after.num_requested + (if answered { 1int } else { 0 }) == tracker.num_requested
            &&& after.pipeline_len == tracker.pipeline_len
            &&& after.requested == tracker.requested
        }),
{
    if piece < tracker.blocks.len() && block < tracker.blocks[piece].len() {
        let row = tracker.blocks[piece];
        outstanding_after_row(tracker.blocks, piece, row);
        outstanding_after_block(row, block, BlockState::Completed);
    }
}

/// To report a piece as received changes the blocks of that piece and no others, and the requests for
/// its blocks are then unanswered no more. A piece that does not exist changes nothing.
pub proof fn received_pieces_are_marked(
    tracker: TrackerModel,
    piece: int,
    other_piece: int,
    other_block: int,
)
    requires
        tracker.wf(),
        0 <= piece,
        0 <= other_piece < tracker.blocks.len(),
        0 <= other_block < tracker.blocks[other_piece].len(),
    ensures
        ({
            let after = tracker.piece_received(piece);
            &&& after.blocks.len() == tracker.blocks.len()
            &&& after.blocks[other_piece].len() == tracker.blocks[other_piece].len()
            &&& after.blocks[other_piece][other_block] == (if other_piece == piece {
                BlockState::Completed
            } else {
                tracker.blocks[other_piece][other_block]
            })
            &&& tracker.num_requested - after.num_requested == outstanding(tracker.blocks)
                - outstanding(after.blocks)
            &&& after.pipeline_len == tracker.pipeline_len
            &&& after.requested == tracker.requested
        }),
{
    if piece < tracker.blocks.len() {
        let row = tracker.blocks[piece];
        let new = uniform(row.len() as int, BlockState::Completed);
        none_outstanding(new);
        outstanding_after_row(tracker.blocks, piece, new);
    }
}

/// To take in a list or a set of pieces that are there marks the blocks of these pieces as received,
/// changes no other block, and leaves the rest as it was.
pub proof fn pieces_that_are_there_are_marked(
    tracker: TrackerModel,
    listed: Seq<usize>,
    bitfield: Seq<bool>,
    piece: usize,
    block: int,
)
    requires
        piece < tracker.blocks.len(),
        0 <= block < tracker.blocks[piece as int].len(),
    ensures
        ({
            let by_list = tracker.list_received(listed);
            let by_set = tracker.set_received(bitfield);
            let before = tracker.blocks[piece as int][block];
            &&& by_list.blocks.len() == tracker.blocks.len()
            &&& by_set.blocks.len() == tracker.blocks.len()
            &&& by_list.blocks[piece as int].len() == tracker.blocks[piece as int].len()
            &&& by_set.blocks[piece as int].len() == tracker.blocks[piece as int].len()
            &&& by_list.blocks[piece as int][block] == (if exists|i: int|
                0 <= i < listed.len() && #[trigger] listed[i] == piece {
                BlockState::Completed
            } else {
                before
            })
            &&& by_set.blocks[piece as int][block] == (if piece < bitfield.len()
                && bitfield[piece as int] {
                BlockState::Completed
            } else {
                before
            })
            &&& by_list == (TrackerModel { blocks: by_list.blocks, ..tracker })
            &&& by_set == (TrackerModel { blocks: by_set.blocks, ..tracker })
        }),
{
    if listed.contains(piece) {
        let i = listed.index_of(piece);
        assert(listed[i] == piece);
    }
}

/// A request that finds a block takes the first one of its piece that has not been asked for. The
/// piece is the one that was being asked for, or one that the peer has where there was none such or
/// nothing was left of it. That block is then asked for, one more request is unanswered, and nothing
/// else changes. A request that finds none changes no block and no count.
pub proof fn requests_ask_for_the_next_block(
    before: TrackerModel,
    pieces: Seq<usize>,
    after: TrackerModel,
    answer: Option<(u32, u32)>,
    other_piece: int,
    other_block: int,
)
    requires
        before.requests(pieces, after, answer),
        before.blocks.len() <= u32::MAX + 1,
        forall|p: int| 0 <= p < before.blocks.len() ==> #[trigger] before.blocks[p].len() <= u32::MAX + 1,
        0 <= other_piece < before.blocks.len(),
        0 <= other_block < before.blocks[other_piece].len(),
    ensures
        after.blocks.len() == before.blocks.len(),
        after.blocks[other_piece].len() == before.blocks[other_piece].len(),
        after.pipeline_len == before.pipeline_len,
        match answer {
            Some((piece, block)) => {
                let row = before.blocks[piece as int];
                &&& before.num_requested < before.pipeline_len
                &&& piece < before.blocks.len()
                &&& block < row.len()
                &&& row[block as int] == BlockState::UnRequested
                &&& forall|b: int| 0 <= b < block ==> #[trigger] row[b] != BlockState::UnRequested
                &&& before.requested == Some(piece as usize) || pieces.contains(piece as usize)
                &&& (before.requested matches Some(started) && started < before.blocks.len() && (
                exists|b: int|
                    0 <= b < before.blocks[started as int].len() && #[trigger]
                        before.blocks[started as int][b] == BlockState::UnRequested))
                    ==> before.requested == Some(piece as usize)
                &&& after.requested == Some(piece as usize)
                &&& after.num_requested == before.num_requested + 1
                &&& after.blocks[other_piece][other_block] == (if other_piece == piece
                    && other_block == block {
                    BlockState::Requested
                } else {
                    before.blocks[other_piece][other_block]
                })
            },
            None => {
                &&& after.num_requested == before.num_requested
                &&& after.blocks[other_piece][other_block]
                    == before.blocks[other_piece][other_block]
            },
        },
{
    if let Some((piece, block)) = answer {
        if before.needs_piece() {
            picked_pieces_come_from_peer(before, pieces, after, answer);
        }
        let chosen = after.requested->0;
        assert(before.asked_for(chosen, after, answer));
        let b = choose|b: int|
            {
                &&& #[trigger] is_first_unrequested(before.blocks[chosen as int], b)
                &&& after == (TrackerModel {
                    blocks: with_block(before.blocks, chosen as int, b, BlockState::Requested),
                    num_requested: before.num_requested + 1,
                    pipeline_len: before.pipeline_len,
                    requested: Some(chosen),
                })
                &&& answer == Some((chosen as u32, b as usize as u32))
            };
        assert(chosen < before.blocks.len());
        assert(piece == chosen && block == b);
        let row = before.blocks[piece as int];
        assert forall|k: int| 0 <= k < block implies #[trigger] row[k] != BlockState::UnRequested by {}
    }
}

/// While fewer requests are unanswered than may be, a block is found wherever one of the peer's
/// pieces has a block that has not been asked for. While as many are unanswered as may be, none is.
pub proof fn blocks_are_found_where_there_are_any(
    before: TrackerModel,
    pieces: Seq<usize>,
    after: TrackerModel,
    answer: Option<(u32, u32)>,
    i: int,
    block: int,
)
    requires
        before.requests(pieces, after, answer),
        before.requested matches Some(piece) ==> piece < before.blocks.len(),
        0 <= i < pieces.len(),
        pieces[i] < before.blocks.len(),
        0 <= block < before.blocks[pieces[i] as int].len(),
        before.blocks[pieces[i] as int][block] == BlockState::UnRequested,
    ensures
        answer is Some <==> before.num_requested < before.pipeline_len,
{
    assert(before.requestable(pieces[i]));
}

/// A block of a piece can be asked for exactly when the piece exists and has a block that has not
/// been. A piece has to be chosen exactly when none has been begun or all blocks of the one that has
/// been are asked for.
pub proof fn pieces_with_new_blocks_can_be_asked_for(tracker: TrackerModel, piece: usize)
    ensures
        tracker.requestable(piece) <==> piece < tracker.blocks.len() && exists|b: int|
            0 <= b < tracker.blocks[piece as int].len() && #[trigger]
                tracker.blocks[piece as int][b] == BlockState::UnRequested,
        tracker.needs_piece() <==> (tracker.requested matches Some(begun) ==> begun
            < tracker.blocks.len() && forall|b: int|
            0 <= b < tracker.blocks[begun as int].len() ==> #[trigger]
                tracker.blocks[begun as int][b] != BlockState::UnRequested),
        tracker.saturated() <==> tracker.pipeline_len <= tracker.num_requested,
{
    if tracker.requestable(piece) {
        let row = tracker.blocks[piece as int];
        let b = choose|b: int| 0 <= b < row.len() && row[b] == BlockState::UnRequested;
        assert(tracker.blocks[piece as int][b] == BlockState::UnRequested);
    }
    if let Some(begun) = tracker.requested {
        if begun < tracker.blocks.len() && has_unrequested(tracker.blocks[begun as int]) {
            let row = tracker.blocks[begun as int];
            let b = choose|b: int| 0 <= b < row.len() && row[b] == BlockState::UnRequested;
            assert(tracker.blocks[begun as int][b] == BlockState::UnRequested);
        }
    }
}

/// To ask for a block of a chosen piece marks the first one of it that has not been asked for and no
/// other block, and answers with it. To give up marks none, answers with none, and leaves no piece
/// chosen.
pub proof fn chosen_pieces_are_asked_for(
    before: TrackerModel,
    piece: usize,
    after: TrackerModel,
    answer: Option<(u32, u32)>,
)
    requires
        piece < before.blocks.len(),
        before.blocks.len() <= u32::MAX + 1,
        before.blocks[piece as int].len() <= u32::MAX + 1,
    ensures
        before.asked_for(piece, after, answer) ==> {
            &&& answer matches Some((p, b)) && {
                &&& p == piece
                &&& b < before.blocks[piece as int].len()
                &&& before.blocks[piece as int][b as int] == BlockState::UnRequested
                &&& forall|k: int|
                    0 <= k < b ==> #[trigger] before.blocks[piece as int][k]
                        != BlockState::UnRequested
                &&& after.blocks.len() == before.blocks.len()
                &&& after.blocks[piece as int].len() == before.blocks[piece as int].len()
                &&& after.blocks[piece as int][b as int] == BlockState::Requested
                &&& forall|k: int|
                    0 <= k < before.blocks[piece as int].len() && k != b ==> #[trigger]
                        after.blocks[piece as int][k] == before.blocks[piece as int][k]
                &&& forall|k: int|
                    0 <= k < before.blocks.len() && k != piece ==> #[trigger] after.blocks[k]
                        == before.blocks[k]
            }
            &&& after.num_requested == before.num_requested + 1
            &&& after.pipeline_len == before.pipeline_len
            &&& after.requested == Some(piece)
        },
        before.gave_up(after, answer) ==> {
            &&& answer is None
            &&& after.blocks == before.blocks
            &&& after.num_requested == before.num_requested
            &&& after.pipeline_len == before.pipeline_len
            &&& after.requested is None
        },
{
}

} // verus!
