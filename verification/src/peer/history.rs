//! What holds of a tracker of blocks whatever has happened to it.
use crate::peer::blocks;
use crate::peer::pieces;
use crate::peer::pieces::{Grid, TrackerModel};
use crate::peer::BlockState;
use vstd::prelude::*;

verus! {

/// What can happen to a tracker.
pub enum Event {
    /// A request, given the pieces that the peer has, and its answer.
    Asked(Seq<usize>, Option<(u32, u32)>),
    /// A request for the piece that has been chosen, and its answer.
    Chosen(Option<usize>, Option<(u32, u32)>),
    /// A block has been received.
    Block(usize, usize),
    /// A piece has been received.
    Piece(usize),
    /// The listed pieces have been received.
    Listed(Seq<usize>),
    /// The pieces in a set have been received.
    Marked(Seq<bool>),
}

/// The block that an event gives out to be asked for, if it does.
pub open spec fn given_out(event: Event) -> Option<(u32, u32)> {
    match event {
        Event::Asked(_, answer) => answer,
        Event::Chosen(_, answer) => answer,
        _ => None,
    }
}

/// The event reports a block as received.
pub open spec fn reports(event: Event, piece: u32, block: u32) -> bool {
    match event {
        Event::Block(p, b) => p == piece && b == block,
        Event::Piece(p) => p == piece,
        Event::Listed(listed) => listed.contains(piece as usize),
        Event::Marked(bitfield) => piece < bitfield.len() && bitfield[piece as int],
        _ => false,
    }
}

/// What an event does to a tracker.
pub open spec fn steps(before: TrackerModel, event: Event, after: TrackerModel) -> bool {
    match event {
        Event::Asked(listed, answer) => before.requests(listed, after, answer),
        Event::Chosen(chosen, answer) => {
            &&& !before.saturated()
            &&& match chosen {
                Some(piece) => before.requestable(piece) && before.asked_for(piece, after, answer),
                None => before.gave_up(after, answer),
            }
        },
        Event::Block(piece, block) => after == before.block_received(piece as int, block as int),
        Event::Piece(piece) => after == before.piece_received(piece as int),
        Event::Listed(listed) => after == before.list_received(listed),
        Event::Marked(bitfield) => after == before.set_received(bitfield),
    }
}

/// A tracker at the start of a session.
pub open spec fn fresh(total: int, piece_length: int) -> TrackerModel {
    TrackerModel {
        blocks: pieces::fresh_grid(total, piece_length),
        num_requested: 0,
        pipeline_len: 5,
        requested: None,
    }
}

/// The states of a tracker from the start of a session on, with an event between each and the next.
pub open spec fn happened(
    total: int,
    piece_length: int,
    states: Seq<TrackerModel>,
    events: Seq<Event>,
) -> bool {
    &&& total > 0
    &&& piece_length > 0
    &&& states.len() == events.len() + 1
    &&& states[0] == fresh(total, piece_length)
    &&& forall|i: int| 0 <= i < events.len() ==> steps(states[i], #[trigger] events[i], states[i + 1])
}

/// The pieces and the blocks of each have numbers of 32 bits.
pub open spec fn countable(total: int, piece_length: int) -> bool {
    &&& blocks::pieces_in(total, piece_length) <= u32::MAX + 1
    &&& blocks::blocks_in(blocks::piece_size(0, total, piece_length)) <= u32::MAX + 1
}

/// The state of a block, or nothing where there is no such block.
pub open spec fn block_state(grid: Grid, piece: u32, block: u32) -> Option<BlockState> {
    if piece < grid.len() && block < grid[piece as int].len() {
        Some(grid[piece as int][block as int])
    } else {
        None
    }
}

/// What stays true of a tracker: its limit, its size, and that every block that is asked for is
/// counted.
pub open spec fn holds_up(tracker: TrackerModel, total: int, piece_length: int) -> bool {
    let grid = pieces::fresh_grid(total, piece_length);
    &&& tracker.pipeline_len == 5
    &&& tracker.num_requested <= 5
    &&& tracker.wf()
    &&& tracker.blocks.len() == grid.len()
    &&& forall|p: int|
        0 <= p < grid.len() ==> (#[trigger] tracker.blocks[p]).len() == grid[p].len()
}

/// The rows of a torrent that can be counted are short.
proof fn rows_are_countable(tracker: TrackerModel, total: int, piece_length: int)
    requires
        total > 0,
        piece_length > 0,
        countable(total, piece_length),
        holds_up(tracker, total, piece_length),
    ensures
        tracker.blocks.len() <= u32::MAX + 1,
        forall|p: int|
            0 <= p < tracker.blocks.len() ==> #[trigger] tracker.blocks[p].len() <= u32::MAX + 1,
{
    let grid = pieces::fresh_grid(total, piece_length);
    blocks::ceil_div_covers(total, piece_length);
    assert forall|p: int| 0 <= p < tracker.blocks.len() implies #[trigger] tracker.blocks[p].len()
        <= u32::MAX + 1 by {
        assert(tracker.blocks[p].len() == grid[p].len());
        blocks::pieces_tile_torrent(p, total, piece_length);
        blocks::first_piece_is_largest(p, total, piece_length);
        let size = blocks::piece_size(p, total, piece_length);
        blocks::ceil_div_covers(size, blocks::BLOCK_SIZE as int);
    }
}

/// Pieces that are all received have nothing outstanding.
proof fn received_pieces_lower_outstanding(before: Grid, after: Grid)
    requires
        after.len() == before.len(),
        forall|p: int|
            0 <= p < before.len() ==> #[trigger] after[p] == before[p] || after[p]
                == pieces::uniform(before[p].len() as int, BlockState::Completed),
    ensures
        pieces::outstanding(after) <= pieces::outstanding(before),
    decreases before.len(),
{
    if before.len() > 0 {
        let b = before.drop_last();
        let a = after.drop_last();
        assert forall|p: int| 0 <= p < b.len() implies #[trigger] a[p] == b[p] || a[p]
            == pieces::uniform(b[p].len() as int, BlockState::Completed) by {
            assert(after[p] == before[p] || after[p] == pieces::uniform(
                before[p].len() as int,
                BlockState::Completed,
            ));
        }
        received_pieces_lower_outstanding(b, a);
        let last = before.len() - 1;
        assert(after[last] == before[last] || after[last] == pieces::uniform(
            before[last].len() as int,
            BlockState::Completed,
        ));
        pieces::none_outstanding(
            pieces::uniform(before[last].len() as int, BlockState::Completed),
        );
    }
}

/// A block that has been asked for adds one to what is outstanding.
proof fn asking_adds_one(before: Grid, piece: int, block: int)
    requires
        0 <= piece < before.len(),
        pieces::is_first_unrequested(before[piece], block),
    ensures
        pieces::outstanding(pieces::with_block(before, piece, block, BlockState::Requested))
            == pieces::outstanding(before) + 1,
{
    let row = before[piece].update(block, BlockState::Requested);
    pieces::outstanding_after_block(before[piece], block, BlockState::Requested);
    pieces::outstanding_after_row(before, piece, row);
}

/// An event keeps what stays true.
proof fn one_step_holds_up(
    before: TrackerModel,
    event: Event,
    after: TrackerModel,
    total: int,
    piece_length: int,
)
    requires
        holds_up(before, total, piece_length),
        steps(before, event, after),
    ensures
        holds_up(after, total, piece_length),
{
    let grid = pieces::fresh_grid(total, piece_length);
    match event {
        Event::Asked(_, _) | Event::Chosen(_, _) => {
            if after.blocks != before.blocks {
                asked_blocks_are_new(before, event, after);
            }
        },
        Event::Block(piece, block) => {
            if piece < before.blocks.len() && block < before.blocks[piece as int].len() {
                let row = before.blocks[piece as int];
                let new = row.update(block as int, BlockState::Completed);
                pieces::outstanding_after_block(row, block as int, BlockState::Completed);
                pieces::outstanding_after_row(before.blocks, piece as int, new);
            }
        },
        Event::Piece(piece) => {
            if piece < before.blocks.len() {
                let row = before.blocks[piece as int];
                let new = pieces::uniform(row.len() as int, BlockState::Completed);
                pieces::none_outstanding(new);
                pieces::outstanding_after_row(before.blocks, piece as int, new);
            }
        },
        Event::Listed(_) | Event::Marked(_) => {
            received_pieces_lower_outstanding(before.blocks, after.blocks);
        },
    }
    assert forall|p: int| 0 <= p < grid.len() implies (#[trigger] after.blocks[p]).len()
        == grid[p].len() by {
        assert(before.blocks[p].len() == grid[p].len());
    }
}

/// A request that changes a block takes one that had not been asked for, and is counted.
proof fn asked_blocks_are_new(before: TrackerModel, event: Event, after: TrackerModel)
    requires
        event is Asked || event is Chosen,
        steps(before, event, after),
        after.blocks != before.blocks,
    ensures
        after.blocks.len() == before.blocks.len(),
        forall|p: int|
            0 <= p < before.blocks.len() ==> (#[trigger] after.blocks[p]).len()
                == before.blocks[p].len(),
        pieces::outstanding(after.blocks) == pieces::outstanding(before.blocks) + 1,
        after.num_requested == before.num_requested + 1,
        after.pipeline_len == before.pipeline_len,
        !before.saturated(),
{
    let (piece, block) = choose|piece: usize, block: int|
        {
            &&& piece < before.blocks.len()
            &&& #[trigger] pieces::is_first_unrequested(before.blocks[piece as int], block)
            &&& after.blocks == pieces::with_block(
                before.blocks,
                piece as int,
                block,
                BlockState::Requested,
            )
            &&& after.num_requested == before.num_requested + 1
        };
    asking_adds_one(before.blocks, piece as int, block);
}

/// What stays true is true at every time.
proof fn holds_up_at(
    total: int,
    piece_length: int,
    states: Seq<TrackerModel>,
    events: Seq<Event>,
    k: int,
)
    requires
        happened(total, piece_length, states, events),
        0 <= k <= events.len(),
    ensures
        holds_up(states[k], total, piece_length),
    decreases k,
{
    if k == 0 {
        let grid = pieces::fresh_grid(total, piece_length);
        blocks::ceil_div_covers(total, piece_length);
        assert forall|p: int, b: int|
            0 <= p < grid.len() && 0 <= b < grid[p].len() implies #[trigger] grid[p][b]
            == BlockState::UnRequested by {}
        pieces::none_outstanding_in_grid(grid);
    } else {
        holds_up_at(total, piece_length, states, events, k - 1);
        assert(steps(states[k - 1], events[k - 1], states[k - 1 + 1]));
        one_step_holds_up(states[k - 1], events[k - 1], states[k], total, piece_length);
    }
}

/// What an event does to one block: it is asked for when it is given out, received when it is
/// reported, and left as it is otherwise.
proof fn one_step_of_block(
    before: TrackerModel,
    event: Event,
    after: TrackerModel,
    piece: u32,
    block: u32,
)
    requires
        steps(before, event, after),
        before.blocks.len() <= u32::MAX + 1,
        forall|p: int|
            0 <= p < before.blocks.len() ==> #[trigger] before.blocks[p].len() <= u32::MAX + 1,
    ensures
        given_out(event) == Some((piece, block)) ==> block_state(before.blocks, piece, block)
            == Some(BlockState::UnRequested),
        block_state(after.blocks, piece, block) == (if block_state(
            before.blocks,
            piece,
            block,
        ) is None {
            None
        } else if given_out(event) == Some((piece, block)) {
            Some(BlockState::Requested)
        } else if reports(event, piece, block) {
            Some(BlockState::Completed)
        } else {
            block_state(before.blocks, piece, block)
        }),
{
    if piece < before.blocks.len() {
        assert(before.blocks[piece as int].len() <= u32::MAX + 1);
    }
    match event {
        Event::Asked(listed, answer) => {
            pieces::requests_take_new_blocks(before, listed, after, answer);
        },
        Event::Chosen(chosen, answer) => {
            if let Some(p) = chosen {
                assert(before.blocks[p as int].len() <= u32::MAX + 1);
            }
        },
        _ => {},
    }
}

/// A block that has once been asked for or received is never again one that has not been asked for,
/// one that has been received stays received, and one that does not exist never does.
proof fn blocks_never_go_back(
    total: int,
    piece_length: int,
    states: Seq<TrackerModel>,
    events: Seq<Event>,
    i: int,
    j: int,
    piece: u32,
    block: u32,
)
    requires
        happened(total, piece_length, states, events),
        countable(total, piece_length),
        0 <= i <= j <= events.len(),
    ensures
        block_state(states[i].blocks, piece, block) != Some(BlockState::UnRequested)
            ==> block_state(states[j].blocks, piece, block) != Some(BlockState::UnRequested),
        block_state(states[i].blocks, piece, block) == Some(BlockState::Completed) ==> block_state(
            states[j].blocks,
            piece,
            block,
        ) == Some(BlockState::Completed),
        block_state(states[i].blocks, piece, block) is None ==> block_state(
            states[j].blocks,
            piece,
            block,
        ) is None,
    decreases j - i,
{
    if i < j {
        blocks_never_go_back(total, piece_length, states, events, i, j - 1, piece, block);
        holds_up_at(total, piece_length, states, events, j - 1);
        rows_are_countable(states[j - 1], total, piece_length);
        assert(steps(states[j - 1], events[j - 1], states[j - 1 + 1]));
        one_step_of_block(states[j - 1], events[j - 1], states[j], piece, block);
    }
}

/// At every time at most five requests are open. While five are, a request asks for nothing and
/// changes nothing.
pub proof fn five_requests_are_open_at_most(
    total: int,
    piece_length: int,
    states: Seq<TrackerModel>,
    events: Seq<Event>,
    k: int,
)
    requires
        happened(total, piece_length, states, events),
        0 <= k <= events.len(),
    ensures
        ({
            let grid = states[k].blocks;
            let open = pieces::pending(grid, grid.len() as int);
            &&& open.len() <= 5
            &&& k < events.len() && events[k] is Asked && open.len() == 5 ==> given_out(events[k])
                is None && states[k + 1] == states[k]
        }),
{
    holds_up_at(total, piece_length, states, events, k);
    let grid = states[k].blocks;
    pieces::pending_is_counted(grid, grid.len() as int);
    assert(grid.take(grid.len() as int) =~= grid);
    if k < events.len() {
        assert(steps(states[k], events[k], states[k + 1]));
    }
}

/// No block is ever given out twice to be asked for.
pub proof fn no_block_is_given_out_twice(
    total: int,
    piece_length: int,
    states: Seq<TrackerModel>,
    events: Seq<Event>,
    i: int,
    j: int,
)
    requires
        happened(total, piece_length, states, events),
        countable(total, piece_length),
        0 <= i < j < events.len(),
        given_out(events[i]) is Some,
    ensures
        given_out(events[j]) != given_out(events[i]),
{
    let (piece, block) = given_out(events[i])->0;
    holds_up_at(total, piece_length, states, events, i);
    rows_are_countable(states[i], total, piece_length);
    assert(steps(states[i], events[i], states[i + 1]));
    one_step_of_block(states[i], events[i], states[i + 1], piece, block);
    blocks_never_go_back(total, piece_length, states, events, i + 1, j, piece, block);
    holds_up_at(total, piece_length, states, events, j);
    rows_are_countable(states[j], total, piece_length);
    assert(steps(states[j], events[j], states[j + 1]));
    one_step_of_block(states[j], events[j], states[j + 1], piece, block);
}

/// A block was given out, and has not been reported as received since.
pub open spec fn is_awaited(events: Seq<Event>, k: int, piece: u32, block: u32) -> bool {
    exists|i: int|
        {
            &&& 0 <= i < k
            &&& given_out(#[trigger] events[i]) == Some((piece, block))
            &&& forall|j: int| i < j < k ==> !reports(#[trigger] events[j], piece, block)
        }
}

/// What is awaited after one more event.
proof fn awaited_after_one_more(events: Seq<Event>, k: int, piece: u32, block: u32)
    requires
        0 < k <= events.len(),
    ensures
        is_awaited(events, k, piece, block) <==> given_out(events[k - 1]) == Some((piece, block)) || (
        is_awaited(events, k - 1, piece, block) && !reports(events[k - 1], piece, block)),
{
    if given_out(events[k - 1]) == Some((piece, block)) {
        assert(is_awaited(events, k, piece, block));
    } else if is_awaited(events, k - 1, piece, block) && !reports(events[k - 1], piece, block) {
        let i = choose|i: int|
            {
                &&& 0 <= i < k - 1
                &&& given_out(#[trigger] events[i]) == Some((piece, block))
                &&& forall|j: int| i < j < k - 1 ==> !reports(#[trigger] events[j], piece, block)
            };
        assert(given_out(events[i]) == Some((piece, block)));
    } else if is_awaited(events, k, piece, block) {
        let i = choose|i: int|
            {
                &&& 0 <= i < k
                &&& given_out(#[trigger] events[i]) == Some((piece, block))
                &&& forall|j: int| i < j < k ==> !reports(#[trigger] events[j], piece, block)
            };
        assert(given_out(events[i]) == Some((piece, block)));
        assert(i < k - 1);
        assert(!reports(events[k - 1], piece, block));
    }
}

/// A block is asked for exactly when it is awaited.
proof fn requested_is_awaited(
    total: int,
    piece_length: int,
    states: Seq<TrackerModel>,
    events: Seq<Event>,
    k: int,
    piece: u32,
    block: u32,
)
    requires
        happened(total, piece_length, states, events),
        countable(total, piece_length),
        0 <= k <= events.len(),
    ensures
        block_state(states[k].blocks, piece, block) == Some(BlockState::Requested)
            <==> is_awaited(events, k, piece, block),
    decreases k,
{
    if k == 0 {
        assert(block_state(states[0].blocks, piece, block) != Some(BlockState::Requested));
    } else {
        requested_is_awaited(total, piece_length, states, events, k - 1, piece, block);
        awaited_after_one_more(events, k, piece, block);
        holds_up_at(total, piece_length, states, events, k - 1);
        rows_are_countable(states[k - 1], total, piece_length);
        assert(steps(states[k - 1], events[k - 1], states[k - 1 + 1]));
        one_step_of_block(states[k - 1], events[k - 1], states[k], piece, block);
    }
}

/// One pair comes before another: it has the smaller piece or, in one piece, the smaller block.
pub open spec fn precedes(a: (u32, u32), b: (u32, u32)) -> bool {
    a.0 < b.0 || (a.0 == b.0 && a.1 < b.1)
}

/// The blocks of a piece that are asked for are listed in ascending order.
proof fn pending_in_piece_ascends(row: Seq<BlockState>, piece: int, upto: int)
    requires
        0 <= upto <= row.len() <= u32::MAX + 1,
        0 <= piece <= u32::MAX,
    ensures
        forall|i: int|
            0 <= i < pieces::pending_in_piece(row, piece, upto).len() ==> {
                &&& (#[trigger] pieces::pending_in_piece(row, piece, upto)[i]).0 == piece
                &&& pieces::pending_in_piece(row, piece, upto)[i].1 < upto
            },
        forall|i: int, j: int|
            0 <= i < j < pieces::pending_in_piece(row, piece, upto).len() ==> precedes(
                #[trigger] pieces::pending_in_piece(row, piece, upto)[i],
                #[trigger] pieces::pending_in_piece(row, piece, upto)[j],
            ),
    decreases upto,
{
    if upto > 0 {
        pending_in_piece_ascends(row, piece, upto - 1);
        let before = pieces::pending_in_piece(row, piece, upto - 1);
        let all = pieces::pending_in_piece(row, piece, upto);
        let last = (piece as usize as u32, (upto - 1) as usize as u32);
        assert forall|i: int| 0 <= i < all.len() implies (#[trigger] all[i]).0 == piece && all[i].1
            < upto by {
            if i < before.len() {
                assert(all[i] == before[i]);
            } else {
                assert(all[i] == last);
            }
        }
        assert forall|i: int, j: int| 0 <= i < j < all.len() implies precedes(
            #[trigger] all[i],
            #[trigger] all[j],
        ) by {
            assert(all[i] == before[i]);
            if j < before.len() {
                assert(all[j] == before[j]);
            } else {
                assert(all[j] == last);
            }
        }
    }
}

/// The blocks that are asked for are listed in ascending order.
pub proof fn pending_ascends(grid: Grid, upto: int)
    requires
        0 <= upto <= grid.len() <= u32::MAX + 1,
        forall|p: int| 0 <= p < grid.len() ==> #[trigger] grid[p].len() <= u32::MAX + 1,
    ensures
        forall|i: int|
            0 <= i < pieces::pending(grid, upto).len() ==> (#[trigger] pieces::pending(
                grid,
                upto,
            )[i]).0 < upto,
        forall|i: int, j: int|
            0 <= i < j < pieces::pending(grid, upto).len() ==> precedes(
                #[trigger] pieces::pending(grid, upto)[i],
                #[trigger] pieces::pending(grid, upto)[j],
            ),
    decreases upto,
{
    if upto > 0 {
        pending_ascends(grid, upto - 1);
        let row = grid[upto - 1];
        pending_in_piece_ascends(row, upto - 1, row.len() as int);
        let before = pieces::pending(grid, upto - 1);
        let new = pieces::pending_in_piece(row, upto - 1, row.len() as int);
        let all = pieces::pending(grid, upto);
        assert forall|i: int| 0 <= i < all.len() implies (#[trigger] all[i]).0 < upto by {
            if i < before.len() {
                assert(all[i] == before[i]);
            } else {
                assert(all[i] == new[i - before.len()]);
            }
        }
        assert forall|i: int, j: int| 0 <= i < j < all.len() implies precedes(
            #[trigger] all[i],
            #[trigger] all[j],
        ) by {
            if j < before.len() {
                assert(all[i] == before[i] && all[j] == before[j]);
            } else if i < before.len() {
                assert(all[i] == before[i] && all[j] == new[j - before.len()]);
            } else {
                assert(all[i] == new[i - before.len()] && all[j] == new[j - before.len()]);
            }
        }
    }
}

/// At every time the pending requests are, in ascending order, the blocks that have been given out
/// and not been reported as received since.
pub proof fn pending_requests_are_awaited(
    total: int,
    piece_length: int,
    states: Seq<TrackerModel>,
    events: Seq<Event>,
    k: int,
)
    requires
        happened(total, piece_length, states, events),
        countable(total, piece_length),
        0 <= k <= events.len(),
    ensures
        ({
            let grid = states[k].blocks;
            let open = pieces::pending(grid, grid.len() as int);
            &&& forall|i: int, j: int|
                0 <= i < j < open.len() ==> precedes(#[trigger] open[i], #[trigger] open[j])
            &&& forall|piece: u32, block: u32| #[trigger]
                open.contains((piece, block)) <==> is_awaited(events, k, piece, block)
        }),
{
    holds_up_at(total, piece_length, states, events, k);
    rows_are_countable(states[k], total, piece_length);
    let grid = states[k].blocks;
    let open = pieces::pending(grid, grid.len() as int);
    pending_ascends(grid, grid.len() as int);
    pieces::pending_is_outstanding(grid, grid.len() as int);
    assert forall|piece: u32, block: u32| #[trigger]
        open.contains((piece, block)) <==> is_awaited(events, k, piece, block) by {
        requested_is_awaited(total, piece_length, states, events, k, piece, block);
    }
}

/// Once a piece is in a set of pieces that have been received, none of its blocks is pending or
/// given out at any later time.
pub proof fn pieces_in_a_set_are_never_asked_for(
    total: int,
    piece_length: int,
    states: Seq<TrackerModel>,
    events: Seq<Event>,
    i: int,
    j: int,
    piece: u32,
    block: u32,
)
    requires
        happened(total, piece_length, states, events),
        countable(total, piece_length),
        0 <= i < j <= events.len(),
        events[i] matches Event::Marked(bitfield) && piece < bitfield.len() && bitfield[piece as int],
    ensures
        ({
            let grid = states[j].blocks;
            &&& !pieces::pending(grid, grid.len() as int).contains((piece, block))
            &&& j < events.len() ==> given_out(events[j]) != Some((piece, block))
        }),
{
    holds_up_at(total, piece_length, states, events, i);
    rows_are_countable(states[i], total, piece_length);
    assert(steps(states[i], events[i], states[i + 1]));
    one_step_of_block(states[i], events[i], states[i + 1], piece, block);
    blocks_never_go_back(total, piece_length, states, events, i + 1, j, piece, block);
    holds_up_at(total, piece_length, states, events, j);
    rows_are_countable(states[j], total, piece_length);
    let grid = states[j].blocks;
    pieces::pending_is_outstanding(grid, grid.len() as int);
    if j < events.len() {
        assert(steps(states[j], events[j], states[j + 1]));
        one_step_of_block(states[j], events[j], states[j + 1], piece, block);
    }
}

/// A tracker begins with every block not asked for, no request unanswered, none allowed beyond five,
/// and no piece begun.
pub proof fn sessions_begin_with_nothing_asked_for(total: int, piece_length: int)
    requires
        total > 0,
        piece_length > 0,
    ensures
        ({
            let tracker = fresh(total, piece_length);
            &&& tracker.num_requested == 0
            &&& tracker.pipeline_len == 5
            &&& tracker.requested is None
            &&& tracker.blocks.len() == blocks::pieces_in(total, piece_length)
            &&& pieces::outstanding(tracker.blocks) == 0
            &&& forall|p: int, b: int|
                0 <= p < tracker.blocks.len() && 0 <= b < tracker.blocks[p].len()
                    ==> #[trigger] tracker.blocks[p][b] == BlockState::UnRequested
        }),
{
    blocks::ceil_div_covers(total, piece_length);
    pieces::none_outstanding_in_grid(fresh(total, piece_length).blocks);
}

} // verus!
