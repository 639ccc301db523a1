//! What the files of a torrent hold, and what writing and reading blocks does to them.
use crate::layout;
use crate::layout::FileSlice;
use crate::parsing;
use crate::parsing::Metadata;
use crate::peer::connection;
use crate::peer::connection::Step;
use crate::peer::message::{Message, MessageId};
use crate::peer::state::StateModel;
use vstd::prelude::*;

verus! {

/// The bytes of a torrent: those of its files, one after the other.
pub open spec fn torrent_bytes(files: Seq<Seq<u8>>) -> Seq<u8> {
    parsing::joined(files)
}

/// The files have the given lengths.
pub open spec fn have_lengths(files: Seq<Seq<u8>>, lengths: Seq<nat>) -> bool {
    &&& files.len() == lengths.len()
    &&& forall|i: int| 0 <= i < files.len() ==> (#[trigger] files[i]).len() == lengths[i]
}

/// A byte string with other bytes from a position on.
pub open spec fn overwrite(bytes: Seq<u8>, at: int, data: Seq<u8>) -> Seq<u8> {
    bytes.take(at) + data + bytes.skip(at + data.len())
}

/// The files after the steps of a message have been performed, given the data of its block.
pub open spec fn perform(files: Seq<Seq<u8>>, steps: Seq<Step>, data: Seq<u8>) -> Seq<Seq<u8>>
    decreases steps.len(),
{
    if steps.len() == 0 {
        files
    } else {
        let before = perform(files, steps.drop_last(), data);
        match steps.last() {
            Step::Write(part, at) => before.update(
                part.file as int,
                overwrite(
                    before[part.file as int],
                    part.offset as int,
                    data.subrange(at as int, at + part.length),
                ),
            ),
            _ => before,
        }
    }
}

/// The bytes of each of several parts.
pub open spec fn read(files: Seq<Seq<u8>>, parts: Seq<FileSlice>) -> Seq<Seq<u8>> {
    parts.map_values(
        |part: FileSlice|
            files[part.file as int].subrange(part.offset as int, part.offset + part.length),
    )
}

/// The torrent has as many bytes as its files.
pub proof fn torrent_length(files: Seq<Seq<u8>>, lengths: Seq<nat>)
    requires
        have_lengths(files, lengths),
    ensures
        torrent_bytes(files).len() == layout::total_of(lengths),
    decreases files.len(),
{
    if files.len() > 0 {
        assert forall|i: int| 0 <= i < files.len() - 1 implies (
        #[trigger] files.drop_last()[i]).len() == lengths.drop_last()[i] by {
            assert(files[i].len() == lengths[i]);
        }
        torrent_length(files.drop_last(), lengths.drop_last());
        assert(files[files.len() - 1].len() == lengths[lengths.len() - 1]);
    }
}

/// The bytes of a file stand in the torrent from where the file starts.
proof fn file_stands_in_torrent(files: Seq<Seq<u8>>, lengths: Seq<nat>, file: int)
    requires
        have_lengths(files, lengths),
        0 <= file < files.len(),
    ensures
        layout::start_of(lengths, file) + lengths[file] <= torrent_bytes(files).len(),
        torrent_bytes(files).subrange(
            layout::start_of(lengths, file) as int,
            (layout::start_of(lengths, file) + lengths[file]) as int,
        ) == files[file],
    decreases files.len(),
{
    let front = files.drop_last();
    let shorter = lengths.drop_last();
    assert forall|i: int| 0 <= i < front.len() implies (#[trigger] front[i]).len() == shorter[i] by {
        assert(files[i].len() == lengths[i]);
    }
    torrent_length(files, lengths);
    torrent_length(front, shorter);
    assert(files[file].len() == lengths[file]);
    let start = layout::start_of(lengths, file) as int;
    if file == files.len() - 1 {
        assert(lengths.take(file) =~= shorter);
        assert(torrent_bytes(files).subrange(start, start + lengths[file]) =~= files[file]);
    } else {
        file_stands_in_torrent(front, shorter, file);
        assert(shorter.take(file) =~= lengths.take(file));
        assert(torrent_bytes(files).subrange(start, start + lengths[file]) =~= torrent_bytes(
            front,
        ).subrange(start, start + lengths[file]));
    }
}

/// To write into a file is to write into the torrent.
proof fn file_is_overwritten_in_torrent(
    files: Seq<Seq<u8>>,
    lengths: Seq<nat>,
    file: int,
    offset: int,
    data: Seq<u8>,
)
    requires
        have_lengths(files, lengths),
        0 <= file < files.len(),
        0 <= offset,
        offset + data.len() <= lengths[file],
    ensures
        have_lengths(files.update(file, overwrite(files[file], offset, data)), lengths),
        torrent_bytes(files.update(file, overwrite(files[file], offset, data))) == overwrite(
            torrent_bytes(files),
            layout::start_of(lengths, file) + offset,
            data,
        ),
    decreases files.len(),
{
    let after = files.update(file, overwrite(files[file], offset, data));
    assert(files[file].len() == lengths[file]);
    assert forall|i: int| 0 <= i < after.len() implies (#[trigger] after[i]).len() == lengths[i] by {
        assert(files[i].len() == lengths[i]);
    }
    let front = files.drop_last();
    let shorter = lengths.drop_last();
    assert forall|i: int| 0 <= i < front.len() implies (#[trigger] front[i]).len() == shorter[i] by {
        assert(files[i].len() == lengths[i]);
    }
    torrent_length(files, lengths);
    torrent_length(front, shorter);
    file_stands_in_torrent(files, lengths, file);
    let start = layout::start_of(lengths, file) as int;
    let expected = overwrite(torrent_bytes(files), start + offset, data);
    if file == files.len() - 1 {
        assert(lengths.take(file) =~= shorter);
        assert(after.drop_last() =~= front);
        assert(torrent_bytes(after) =~= expected);
    } else {
        file_is_overwritten_in_torrent(front, shorter, file, offset, data);
        file_stands_in_torrent(front, shorter, file);
        assert(shorter.take(file) =~= lengths.take(file));
        assert(after.drop_last() =~= front.update(file, overwrite(front[file], offset, data)));
        assert(after.last() == files.last());
        assert(torrent_bytes(after) =~= expected);
    }
}

/// What the first parts of a run hold is the start of the run.
proof fn parts_read_prefix(
    files: Seq<Seq<u8>>,
    lengths: Seq<nat>,
    start: int,
    end: int,
    k: int,
)
    requires
        have_lengths(files, lengths),
        layout::total_of(lengths) <= u64::MAX,
        lengths.len() <= usize::MAX,
        0 <= start <= end <= layout::total_of(lengths),
        0 <= k <= layout::parts(lengths, lengths.len() as int, start, end).len(),
    ensures
        ({
            let found = layout::parts(lengths, lengths.len() as int, start, end);
            &&& start + layout::bytes_in(found.take(k)) <= end
            &&& parsing::joined(read(files, found.take(k))) == torrent_bytes(files).subrange(
                start,
                start + layout::bytes_in(found.take(k)),
            )
        }),
    decreases k,
{
    let found = layout::parts(lengths, lengths.len() as int, start, end);
    let whole = torrent_bytes(files);
    torrent_length(files, lengths);
    layout::parts_cover_run(lengths, start, end);
    layout::bytes_ascend(found, k);
    if k == 0 {
        assert(read(files, found.take(0)) =~= Seq::<Seq<u8>>::empty());
        assert(whole.subrange(start, start) =~= Seq::<u8>::empty());
    } else {
        parts_read_prefix(files, lengths, start, end, k - 1);
        layout::parts_are_contiguous(lengths, lengths.len() as int, start, end, k - 1);
        let part = found[k - 1];
        let file = part.file as int;
        assert(found.take(k).drop_last() =~= found.take(k - 1));
        assert(read(files, found.take(k)).drop_last() =~= read(files, found.take(k - 1)));
        file_stands_in_torrent(files, lengths, file);
        assert(files[file].len() == lengths[file]);
        let before = layout::bytes_in(found.take(k - 1)) as int;
        let bytes = files[file].subrange(part.offset as int, part.offset + part.length);
        assert(read(files, found.take(k)).last() == bytes);
        let file_start = layout::start_of(lengths, file) as int;
        assert(bytes =~= whole.subrange(start + before, start + before + part.length)) by {
            assert forall|i: int| 0 <= i < part.length implies #[trigger] bytes[i] == whole[start
                + before + i] by {
                assert(whole.subrange(file_start, file_start + lengths[file])[part.offset + i]
                    == files[file][part.offset + i]);
            }
        }
        assert(whole.subrange(start, start + before) + bytes =~= whole.subrange(
            start,
            start + before + part.length,
        ));
    }
}

/// The parts of a run of bytes, read one after the other, are the run.
pub proof fn parts_hold_run(files: Seq<Seq<u8>>, lengths: Seq<nat>, start: int, end: int)
    requires
        have_lengths(files, lengths),
        layout::total_of(lengths) <= u64::MAX,
        lengths.len() <= usize::MAX,
        0 <= start <= end <= layout::total_of(lengths),
    ensures
        parsing::joined(
            read(files, layout::parts(lengths, lengths.len() as int, start, end)),
        ) == torrent_bytes(files).subrange(start, end),
{
    let found = layout::parts(lengths, lengths.len() as int, start, end);
    parts_read_prefix(files, lengths, start, end, found.len() as int);
    layout::parts_cover_run(lengths, start, end);
    assert(found.take(found.len() as int) =~= found);
}

/// After the first parts of a block have been written, the start of the block stands in its place.
proof fn parts_write_prefix(
    files: Seq<Seq<u8>>,
    lengths: Seq<nat>,
    start: int,
    data: Seq<u8>,
    k: int,
)
    requires
        have_lengths(files, lengths),
        layout::total_of(lengths) <= u64::MAX,
        lengths.len() <= usize::MAX,
        data.len() <= usize::MAX,
        0 <= start,
        start + data.len() <= layout::total_of(lengths),
        0 <= k <= layout::parts(
            lengths,
            lengths.len() as int,
            start,
            start + data.len(),
        ).len(),
    ensures
        ({
            let found = layout::parts(lengths, lengths.len() as int, start, start + data.len());
            let after = perform(files, connection::writes(found).take(k), data);
            &&& have_lengths(after, lengths)
            &&& layout::bytes_in(found.take(k)) <= data.len()
            &&& torrent_bytes(after) == overwrite(
                torrent_bytes(files),
                start,
                data.take(layout::bytes_in(found.take(k)) as int),
            )
        }),
    decreases k,
{
    let end = start + data.len();
    let found = layout::parts(lengths, lengths.len() as int, start, end);
    let steps = connection::writes(found);
    let whole = torrent_bytes(files);
    torrent_length(files, lengths);
    layout::parts_cover_run(lengths, start, end);
    layout::bytes_ascend(found, k);
    if k == 0 {
        assert(steps.take(0) =~= Seq::<Step>::empty());
        assert(found.take(0) =~= Seq::<FileSlice>::empty());
        assert(overwrite(whole, start, data.take(0)) =~= whole);
    } else {
        parts_write_prefix(files, lengths, start, data, k - 1);
        layout::parts_are_contiguous(lengths, lengths.len() as int, start, end, k - 1);
        let before = perform(files, steps.take(k - 1), data);
        let part = found[k - 1];
        let at = layout::bytes_in(found.take(k - 1)) as int;
        let slice = data.subrange(at, at + part.length);
        assert(found.take(k).drop_last() =~= found.take(k - 1));
        assert(steps.take(k).drop_last() =~= steps.take(k - 1));
        assert(steps.take(k).last() == Step::Write(part, at as usize));
        file_is_overwritten_in_torrent(
            before,
            lengths,
            part.file as int,
            part.offset as int,
            slice,
        );
        assert(overwrite(overwrite(whole, start, data.take(at)), start + at, slice) =~= overwrite(
            whole,
            start,
            data.take(at + part.length),
        ));
    }
}

/// A block that is written part by part stands at its place in the torrent, and every other byte of
/// the torrent stays as it was.
pub proof fn written_parts_are_the_block(
    files: Seq<Seq<u8>>,
    lengths: Seq<nat>,
    start: int,
    data: Seq<u8>,
)
    requires
        have_lengths(files, lengths),
        layout::total_of(lengths) <= u64::MAX,
        lengths.len() <= usize::MAX,
        data.len() <= usize::MAX,
        0 <= start,
        start + data.len() <= layout::total_of(lengths),
    ensures
        ({
            let found = layout::parts(lengths, lengths.len() as int, start, start + data.len());
            let after = perform(files, connection::writes(found), data);
            &&& have_lengths(after, lengths)
            &&& torrent_bytes(after) == overwrite(torrent_bytes(files), start, data)
        }),
{
    let found = layout::parts(lengths, lengths.len() as int, start, start + data.len());
    let steps = connection::writes(found);
    parts_write_prefix(files, lengths, start, data, found.len() as int);
    layout::parts_cover_run(lengths, start, start + data.len());
    assert(found.take(found.len() as int) =~= found);
    assert(steps.take(found.len() as int) =~= steps);
    assert(data.take(data.len() as int) =~= data);
}

/// A message that brings a block, once its steps have been performed, has put the block at its place
/// in the torrent, and has left every other byte of the torrent as it was.
pub proof fn received_blocks_are_stored(
    files: Seq<Seq<u8>>,
    state: StateModel,
    mine: Seq<bool>,
    metadata: Metadata,
    message: Message,
    payload: Seq<u8>,
)
    requires
        metadata.wf(),
        have_lengths(files, metadata.info.torr_type.lengths()),
        message.message_id == Some(MessageId::Piece),
        connection::makes_sense(state, message, payload),
        connection::block_fits(metadata, message, payload),
        payload.len() <= usize::MAX,
    ensures
        ({
            let steps = connection::steps_after(state, mine, metadata, message, payload);
            let after = perform(files, steps, payload.skip(8));
            let position = metadata.position(
                connection::number_at(payload, 0) as int,
                connection::number_at(payload, 4) as int,
            );
            &&& have_lengths(after, metadata.info.torr_type.lengths())
            &&& torrent_bytes(after) == overwrite(torrent_bytes(files), position, payload.skip(8))
        }),
{
    let lengths = metadata.info.torr_type.lengths();
    let piece = connection::number_at(payload, 0) as int;
    let piece_length = metadata.info.piece_length as int;
    let position = metadata.position(piece, connection::number_at(payload, 4) as int);
    let data = payload.skip(8);
    assert(piece * piece_length >= 0) by (nonlinear_arith)
        requires
            piece >= 0,
            piece_length >= 0,
    ;
    metadata.info.torr_type.lengths_fit();
    parsing::lengths_add_up(metadata.info.torr_type);
    written_parts_are_the_block(files, lengths, position, data);
    let steps = connection::steps_after(state, mine, metadata, message, payload);
    assert(steps.drop_last() =~= connection::writes(connection::block_parts(metadata, payload)));
}

/// A block that has been written is what is read at its place, and what is read elsewhere is what
/// stood there before.
pub proof fn written_blocks_are_read_back(
    files: Seq<Seq<u8>>,
    lengths: Seq<nat>,
    start: int,
    data: Seq<u8>,
    from: int,
    to: int,
)
    requires
        have_lengths(files, lengths),
        layout::total_of(lengths) <= u64::MAX,
        lengths.len() <= usize::MAX,
        data.len() <= usize::MAX,
        0 <= start,
        start + data.len() <= layout::total_of(lengths),
        0 <= from <= to <= layout::total_of(lengths),
    ensures
        ({
            let found = layout::parts(lengths, lengths.len() as int, start, start + data.len());
            let after = perform(files, connection::writes(found), data);
            let seen = layout::parts(lengths, lengths.len() as int, from, to);
            &&& parsing::joined(read(after, found)) == data
            &&& to <= start || start + data.len() <= from ==> parsing::joined(read(after, seen))
                == parsing::joined(read(files, seen))
        }),
{
    let end = start + data.len();
    let found = layout::parts(lengths, lengths.len() as int, start, end);
    let after = perform(files, connection::writes(found), data);
    written_parts_are_the_block(files, lengths, start, data);
    torrent_length(files, lengths);
    parts_hold_run(after, lengths, start, end);
    parts_hold_run(after, lengths, from, to);
    parts_hold_run(files, lengths, from, to);
    let whole = torrent_bytes(files);
    let changed = overwrite(whole, start, data);
    assert(changed.subrange(start, end) =~= data);
    if to <= start || end <= from {
        assert(changed.subrange(from, to) =~= whole.subrange(from, to));
    }
}

} // verus!
