//! The pieces of a download and where they lie on disk.
use crate::bits;
use crate::bits::PieceBits;
use crate::buffer;
use crate::digest;
use crate::layout;
use crate::layout::FileSlice;
use crate::parsing;
use crate::parsing::{File, Hashes, Metadata};
use crate::paths;
use crate::peer::blocks;
use crate::peer::connection;
use crate::storage;
use crate::text;
use crate::wire;
use crate::{RecvError, ThreadUpdate};
use bytes::Bytes;
use vstd::arithmetic::div_mod;
use vstd::prelude::*;

verus! {

/// The files of a download and the pieces of it that are complete.
#[derive(Debug)]
pub struct Download {
    /// The number of bytes in a piece, except for the last one.
    pub piece_length: u64,
    /// The number of bytes in all files.
    pub length: u64,
    /// The files, each with its path.
    pub files: Vec<File>,
    /// The number of pieces.
    pub num_pieces: usize,
    /// The hash of each piece, as the torrent gives it.
    pub piece_hashes: Hashes,
    /// The pieces that have been read back and have their hash.
    pub bitvec: PieceBits,
}

impl Download {
    /// The numbers agree: the files have the given length together, and there is a bit for every
    /// piece. The spare bits are zero.
    pub open spec fn wf(self) -> bool {
        &&& 0 < self.piece_length <= usize::MAX
        &&& self.length == layout::total_of(layout::lengths_of(self.files@))
        &&& self.num_pieces == blocks::pieces_in(self.length as int, self.piece_length as int)
        &&& self.bitvec@.len() == self.num_pieces
        &&& bits::spare_is_clear(self.bitvec)
    }

    /// Only the pieces that are complete differ.
    pub open spec fn same_but_for_bits(self, other: Self) -> bool {
        &&& self.piece_length == other.piece_length
        &&& self.length == other.length
        &&& self.files == other.files
        &&& self.num_pieces == other.num_pieces
        &&& self.piece_hashes == other.piece_hashes
    }

    /// A download of which nothing is complete. The files lie in the given directory or else in the
    /// one that fits the torrent.
    pub fn new(metadata: &Metadata, output_dir: &Option<String>, separator: char) -> (download: Self)
        requires
            metadata.wf(),
            metadata.piece_count() <= bits::max_bits(),
        ensures
            download.wf(),
            download.piece_length == metadata.info.piece_length,
            download.length == metadata.info.torr_type.total(),
            download.num_pieces == metadata.piece_count(),
            download.piece_hashes@ == metadata.info.pieces@,
            download.bitvec@ == Seq::new(metadata.piece_count() as nat, |i: int| false),
            paths::models_of(download.files@) == paths::under(
                metadata.info.directory(text::text_of(*output_dir)),
                metadata.info.file_models(separator),
            ),
            layout::lengths_of(download.files@) == metadata.info.torr_type.lengths(),
    {
        let num_pieces: usize = metadata.num_pieces();
        let directory = metadata.info.output_directory(output_dir);
        let files = metadata.info.files_in(&directory, separator);
        proof {
            parsing::lengths_add_up(metadata.info.torr_type);
            let models = metadata.info.file_models(separator);
            let whole = paths::under(directory@, models);
            assert(paths::models_of(files@).len() == files@.len());
            assert(whole.len() == models.len());
            assert forall|i: int| 0 <= i < files@.len() implies #[trigger] layout::lengths_of(
                files@,
            )[i] == metadata.info.torr_type.lengths()[i] by {
                assert(paths::models_of(files@)[i] == files@[i]@);
                assert(whole[i].length == models[i].length);
            }
            assert(layout::lengths_of(files@) =~= metadata.info.torr_type.lengths());
        }
        Download {
            piece_length: metadata.info.piece_length,
            length: metadata.info.torr_type.len(),
            num_pieces,
            piece_hashes: metadata.info.pieces.copy(),
            files,
            bitvec: PieceBits::repeat(false, num_pieces),
        }
    }

    /// Where a piece starts in the torrent.
    pub open spec fn piece_start(self, piece: int) -> int {
        piece * self.piece_length
    }

    /// Where a piece ends in the torrent.
    pub open spec fn piece_end(self, piece: int) -> int {
        let end = self.piece_start(piece) + self.piece_length;
        if end < self.length {
            end
        } else {
            self.length as int
        }
    }

    /// The piece starts inside the torrent, and its full length can be counted in 64 bits.
    pub open spec fn has_piece(self, piece: int) -> bool {
        &&& self.piece_start(piece) <= self.length
        &&& self.piece_start(piece) + self.piece_length <= u64::MAX
    }

    /// The parts of the files that a piece is made of.
    pub open spec fn piece_parts(self, piece: int) -> Seq<FileSlice> {
        layout::parts(
            layout::lengths_of(self.files@),
            self.files@.len() as int,
            self.piece_start(piece),
            self.piece_end(piece),
        )
    }

    /// Finds the parts of the files that a piece is made of.
    pub fn parts_of_piece(&self, piece_idx: u64) -> (parts: Vec<FileSlice>)
        requires
            self.wf(),
            self.has_piece(piece_idx as int),
        ensures
            parts@ == self.piece_parts(piece_idx as int),
    {
        proof {
            self.starts_fit(piece_idx as int);
        }
        let piece_start: u64 = piece_idx * self.piece_length;
        let full_end: u64 = piece_start + self.piece_length;
        let piece_end: u64 = if full_end < self.length {
            full_end
        } else {
            self.length
        };
        layout::parts_of(&self.files, piece_start, piece_end)
    }

    /// Positions are not negative.
    proof fn starts_fit(&self, piece: int)
        requires
            0 <= piece,
        ensures
            self.piece_start(piece) >= 0,
    {
        let piece_length = self.piece_length as int;
        assert(piece * piece_length >= 0) by (nonlinear_arith)
            requires
                piece >= 0,
                piece_length >= 0,
        ;
    }

    /// A number of bytes that a piece may have: that of a full piece, or of what is left over after
    /// the full ones.
    pub open spec fn allows_size(self, size: nat) -> bool {
        size == self.piece_length || size == self.length as int % self.piece_length as int
    }

    /// Puts the parts of a piece together, after they have been read.
    pub fn get_piece_data(&self, piece_idx: u64, parts: &Vec<Vec<u8>>) -> (data: Result<
        Bytes,
        &'static str,
    >)
        requires
            self.wf(),
            self.has_piece(piece_idx as int),
            self.piece_end(piece_idx as int) - self.piece_start(piece_idx as int) <= isize::MAX,
            parsing::joined(contents(parts@)).len() <= isize::MAX,
        ensures
            match data {
                Ok(data) => {
                    &&& buffer::content_of(data) == parsing::joined(contents(parts@))
                    &&& self.allows_size(buffer::content_of(data).len())
                },
                Err(message) => {
                    &&& !self.allows_size(parsing::joined(contents(parts@)).len())
                    &&& message@ == "Piece data has incorrect size."@
                },
            },
    {
        proof {
            self.starts_fit(piece_idx as int);
        }
        let piece_start: u64 = piece_idx * self.piece_length;
        let full_end: u64 = piece_start + self.piece_length;
        let piece_end: u64 = if full_end < self.length {
            full_end
        } else {
            self.length
        };
        let mut piece_data = buffer::with_capacity((piece_end - piece_start) as usize);
        let ghost all = contents(parts@);
        let mut i: usize = 0;
        assert(all.take(0) =~= Seq::<Seq<u8>>::empty());
        while i < parts.len()
            invariant
                i <= parts@.len(),
                all == contents(parts@),
                parsing::joined(all).len() <= isize::MAX,
                buffer::bytes_of(piece_data) == parsing::joined(all.take(i as int)),
            decreases parts@.len() - i,
        {
            proof {
                assert(all.take(i + 1).drop_last() =~= all.take(i as int));
                joined_ascends(all, i + 1);
            }
            buffer::extend_from_slice(&mut piece_data, parts[i].as_slice());
            i = i + 1;
        }
        assert(all.take(i as int) =~= all);
        let len: usize = buffer::as_slice(&piece_data).len();
        if len as u64 != self.piece_length && len as u64 != self.length % self.piece_length {
            Err("Piece data has incorrect size.")
        } else {
            Ok(buffer::freeze(piece_data))
        }
    }

    /// The hash is the one that the torrent gives for the piece.
    pub open spec fn matches(self, piece: int, hash: Seq<u8>) -> bool {
        hash == self.piece_hashes@[piece]
    }

    /// The pieces whose hashes are the ones that the torrent gives.
    pub open spec fn judged(self, hashes: Seq<Seq<u8>>) -> Seq<bool> {
        Seq::new(self.num_pieces as nat, |i: int| self.matches(i, hashes[i]))
    }

    /// Takes in the hash of a piece that has been read back. Returns whether the piece is now
    /// complete and was not before.
    pub fn record_hash(&mut self, piece: usize, piece_hash: &[u8; 20]) -> (new: bool)
        requires
            old(self).wf(),
            piece < old(self).num_pieces,
            piece < old(self).piece_hashes@.len(),
        ensures
            final(self).wf(),
            final(self).same_but_for_bits(*old(self)),
            final(self).bitvec@ == checked(
                old(self).bitvec@,
                piece as int,
                old(self).matches(piece as int, piece_hash@),
            ),
            new == (old(self).matches(piece as int, piece_hash@) && !old(
                self,
            ).bitvec@[piece as int]),
    {
        let hash = self.piece_hashes.0[piece];
        assert(hash@ == self.piece_hashes@[piece as int]);
        let finished_download = wire::same_bytes(piece_hash.as_slice(), hash.as_slice());
        let prev = self.bitvec.replace(piece, finished_download);
        finished_download && !prev
    }

    /// Takes in a piece that has been read back: it is complete exactly when it has the hash that the
    /// torrent gives. Returns whether it is now complete and was not before.
    pub fn update_piece(&mut self, piece: usize, piece_data: &Bytes) -> (new: bool)
        requires
            old(self).wf(),
            piece < old(self).num_pieces,
            piece < old(self).piece_hashes@.len(),
        ensures
            final(self).wf(),
            final(self).same_but_for_bits(*old(self)),
            final(self).bitvec@ == checked(
                old(self).bitvec@,
                piece as int,
                old(self).matches(piece as int, digest::sha1_of(buffer::content_of(*piece_data))),
            ),
            new == (old(self).matches(
                piece as int,
                digest::sha1_of(buffer::content_of(*piece_data)),
            ) && !old(self).bitvec@[piece as int]),
    {
        let piece_hash = piece_hash(piece_data);
        self.record_hash(piece, &piece_hash)
    }

    /// Takes in the hashes of all pieces, after they have been read back. Returns the pieces that are
    /// now complete and were not before, in ascending order.
    pub fn update_downloads(&mut self, hashes: &Vec<[u8; 20]>) -> (changed: Vec<usize>)
        requires
            old(self).wf(),
            hashes@.len() == old(self).num_pieces,
            old(self).num_pieces <= old(self).piece_hashes@.len(),
        ensures
            final(self).wf(),
            final(self).same_but_for_bits(*old(self)),
            forall|i: int|
                0 <= i < old(self).num_pieces ==> #[trigger] final(self).bitvec@[i] == old(
                    self,
                ).matches(i, hashes@[i]@),
            final(self).bitvec@ == old(self).judged(
                hashes@.map_values(|hash: [u8; 20]| hash@),
            ),
            changed@ == newly_set(
                old(self).bitvec@,
                final(self).bitvec@,
                old(self).num_pieces as int,
            ),
    {
        let ghost before = self.bitvec@;
        let count: usize = self.num_pieces;
        let mut changed: Vec<usize> = Vec::new();
        let mut piece: usize = 0;
        while piece < count
            invariant
                piece <= count,
                self.wf(),
                self.same_but_for_bits(*old(self)),
                count == old(self).num_pieces,
                hashes@.len() == count,
                count <= old(self).piece_hashes@.len(),
                before == old(self).bitvec@,
                before.len() == count,
                forall|i: int|
                    0 <= i < piece ==> #[trigger] self.bitvec@[i] == old(self).matches(
                        i,
                        hashes@[i]@,
                    ),
                forall|i: int| piece <= i < count ==> #[trigger] self.bitvec@[i] == before[i],
                changed@ == newly_set(before, self.bitvec@, piece as int),
            decreases count - piece,
        {
            let ghost seen = self.bitvec@;
            let new = self.record_hash(piece, &hashes[piece]);
            proof {
                newly_set_depends_on_prefix(before, seen, self.bitvec@, piece as int);
            }
            if new {
                changed.push(piece);
            }
            piece = piece + 1;
        }
        assert(self.bitvec@ =~= old(self).judged(hashes@.map_values(|hash: [u8; 20]| hash@)));
        changed
    }

    /// Whether every piece is complete.
    pub fn is_downloaded(&self) -> (done: bool)
        requires
            self.wf(),
        ensures
            done == connection::complete(self.bitvec@),
    {
        proof {
            bits::all_ones_by_count(self.bitvec@);
        }
        self.bitvec.count_ones() == self.num_pieces
    }

    /// How many pieces are complete.
    pub fn num_completed_pieces(&self) -> (count: usize)
        ensures
            count == bits::ones_in(self.bitvec@),
    {
        self.bitvec.count_ones()
    }

    /// The pieces that are complete.
    pub fn bitfield(&self) -> (pieces: PieceBits)
        ensures
            pieces@ == self.bitvec@,
            bits::spare_is_clear(pieces),
    {
        self.bitvec.clone()
    }

    /// Takes in a piece of which a block has been written and that has been read back. Returns what
    /// to tell the other tasks: that the piece is complete, if that is new, and that the whole
    /// download is, if it is.
    pub fn check_piece(&mut self, piece: u32, piece_data: &Bytes) -> (updates: Vec<ThreadUpdate>)
        requires
            old(self).wf(),
            piece < old(self).num_pieces,
            piece < old(self).piece_hashes@.len(),
        ensures
            final(self).wf(),
            final(self).same_but_for_bits(*old(self)),
            final(self).bitvec@ == checked(
                old(self).bitvec@,
                piece as int,
                old(self).matches(piece as int, digest::sha1_of(buffer::content_of(*piece_data))),
            ),
            updates@ == progress(old(self).bitvec@, final(self).bitvec@, piece),
    {
        let mut updates: Vec<ThreadUpdate> = Vec::new();
        if self.update_piece(piece as usize, piece_data) {
            updates.push(ThreadUpdate::Completed(piece));
        }
        if self.is_downloaded() {
            updates.push(ThreadUpdate::FileComplete);
        }
        assert(updates@ =~= progress(old(self).bitvec@, self.bitvec@, piece));
        updates
    }
}

/// The pieces that are complete after one has been read back.
pub open spec fn checked(complete: Seq<bool>, piece: int, good: bool) -> Seq<bool> {
    complete.update(piece, good)
}

/// The bytes of each vector.
pub open spec fn contents(parts: Seq<Vec<u8>>) -> Seq<Seq<u8>> {
    parts.map_values(|part: Vec<u8>| part@)
}

/// The first parts are no longer than all of them.
proof fn joined_ascends(parts: Seq<Seq<u8>>, upto: int)
    requires
        0 <= upto <= parts.len(),
    ensures
        parsing::joined(parts.take(upto)).len() <= parsing::joined(parts).len(),
    decreases parts.len() - upto,
{
    if upto < parts.len() {
        joined_ascends(parts, upto + 1);
        assert(parts.take(upto + 1).drop_last() =~= parts.take(upto));
    } else {
        assert(parts.take(upto) =~= parts);
    }
}

/// The hash of a piece.
pub fn piece_hash(piece_data: &Bytes) -> (hash: [u8; 20])
    ensures
        hash@ == digest::sha1_of(buffer::content_of(*piece_data)),
{
    digest::sha1_digest(buffer::content(piece_data))
}

/// The positions below `upto` that are set now and were not before, in ascending order.
pub open spec fn newly_set(before: Seq<bool>, now: Seq<bool>, upto: int) -> Seq<usize>
    decreases upto,
{
    if upto <= 0 {
        Seq::empty()
    } else {
        let found = newly_set(before, now, upto - 1);
        if now[upto - 1] && !before[upto - 1] {
            found.push((upto - 1) as usize)
        } else {
            found
        }
    }
}

/// Only the bits below `upto` matter.
proof fn newly_set_depends_on_prefix(before: Seq<bool>, a: Seq<bool>, b: Seq<bool>, upto: int)
    requires
        0 <= upto <= a.len(),
        a.len() == b.len(),
        forall|i: int| 0 <= i < upto ==> a[i] == b[i],
    ensures
        newly_set(before, a, upto) == newly_set(before, b, upto),
    decreases upto,
{
    if upto > 0 {
        newly_set_depends_on_prefix(before, a, b, upto - 1);
    }
}

/// What is to be told after a piece has been read back.
pub open spec fn progress(before: Seq<bool>, now: Seq<bool>, piece: u32) -> Seq<ThreadUpdate> {
    let completed = if now[piece as int] && !before[piece as int] {
        seq![ThreadUpdate::Completed(piece)]
    } else {
        Seq::empty()
    };
    if connection::complete(now) {
        completed.push(ThreadUpdate::FileComplete)
    } else {
        completed
    }
}

/// Whether a file is empty, so that it has to be given its length.
pub fn needs_length(current_length: u64) -> (new: bool)
    ensures
        new == (current_length == 0),
{
    current_length == 0
}

/// Whether all files have just been made, so that there is nothing to be read back. Of each file it is
/// given whether it was there before.
pub fn initialized_all(existed: &Vec<bool>) -> (all: bool)
    ensures
        all == (forall|i: int| 0 <= i < existed@.len() ==> !existed@[i]),
{
    let mut i: usize = 0;
    while i < existed.len()
        invariant
            i <= existed@.len(),
            forall|k: int| 0 <= k < i ==> !existed@[k],
        decreases existed@.len() - i,
    {
        if existed[i] {
            return false;
        }
        i = i + 1;
    }
    true
}

/// What the task that watches over a download has to do.
#[derive(Copy, Clone, Debug, PartialEq, Eq, Structural)]
pub enum Monitor {
    /// Read a piece back and look whether it is complete.
    Check(u32),
    /// Say how far the download has come, now that the piece is complete.
    Report(u32),
    /// Go on.
    Continue,
    /// End.
    Stop,
}

/// What the task that watches over a download does after an update.
pub open spec fn step_after(update: Result<ThreadUpdate, RecvError>) -> Monitor {
    match update {
        Ok(ThreadUpdate::Downloaded(piece, _)) => Monitor::Check(piece),
        Ok(ThreadUpdate::Completed(piece)) => Monitor::Report(piece),
        Ok(ThreadUpdate::FileComplete) => Monitor::Stop,
        Ok(ThreadUpdate::Disconnect) => Monitor::Continue,
        Err(RecvError::Closed) => Monitor::Stop,
        Err(RecvError::Lagged(_)) => Monitor::Continue,
    }
}

/// Decides on an update.
pub fn monitor_file_progress(update: Result<ThreadUpdate, RecvError>) -> (step: Monitor)
    ensures
        step == step_after(update),
{
    match update {
        Ok(ThreadUpdate::Downloaded(piece, _)) => Monitor::Check(piece),
        Ok(ThreadUpdate::Completed(piece)) => Monitor::Report(piece),
        Ok(ThreadUpdate::FileComplete) => Monitor::Stop,
        Ok(_) => Monitor::Continue,
        Err(RecvError::Closed) => Monitor::Stop,
        Err(RecvError::Lagged(_)) => Monitor::Continue,
    }
}

/// From where a piece starts to where it ends there are as many bytes as the piece has.
proof fn piece_runs(download: Download, piece: int)
    requires
        download.wf(),
        0 <= piece < download.num_pieces,
    ensures
        0 <= download.piece_start(piece),
        0 < blocks::piece_size(piece, download.length as int, download.piece_length as int),
        download.piece_end(piece) - download.piece_start(piece) == blocks::piece_size(
            piece,
            download.length as int,
            download.piece_length as int,
        ),
{
    let total = download.length as int;
    let piece_length = download.piece_length as int;
    if total == 0 {
        div_mod::lemma_small_mod(0, piece_length as nat);
    }
    blocks::pieces_tile_torrent(piece, total, piece_length);
    blocks::ceil_div_covers(total, piece_length);
    download.starts_fit(piece);
    let count = blocks::pieces_in(total, piece_length);
    if piece < count - 1 {
        assert((piece + 1) * piece_length <= (count - 1) * piece_length) by (nonlinear_arith)
            requires
                piece + 1 <= count - 1,
                piece_length > 0,
        ;
    }
}

/// A piece that is read as its parts say has as many bytes as the piece, which is a number that a
/// piece may have.
pub proof fn whole_pieces_are_accepted(download: Download, piece: int)
    requires
        download.wf(),
        0 <= piece < download.num_pieces,
    ensures
        ({
            let size = blocks::piece_size(
                piece,
                download.length as int,
                download.piece_length as int,
            );
            &&& layout::bytes_in(download.piece_parts(piece)) == size
            &&& download.piece_end(piece) - download.piece_start(piece) == size
            &&& download.allows_size(size as nat)
        }),
{
    piece_runs(download, piece);
    assert(download.files.len() == download.files@.len());
    let total = download.length as int;
    let piece_length = download.piece_length as int;
    if total == 0 {
        div_mod::lemma_small_mod(0, piece_length as nat);
    }
    blocks::ceil_div_covers(total, piece_length);
    layout::parts_cover_run(
        layout::lengths_of(download.files@),
        download.piece_start(piece),
        download.piece_end(piece),
    );
}

/// What is read of a piece, part by part, are the bytes of the torrent from where the piece starts to
/// where it ends, and they have a length that a piece may have.
pub proof fn pieces_are_read_whole(download: Download, disk: Seq<Seq<u8>>, piece: int)
    requires
        download.wf(),
        storage::have_lengths(disk, layout::lengths_of(download.files@)),
        0 <= piece < download.num_pieces,
    ensures
        ({
            let data = parsing::joined(storage::read(disk, download.piece_parts(piece)));
            &&& data == storage::torrent_bytes(disk).subrange(
                download.piece_start(piece),
                download.piece_end(piece),
            )
            &&& download.allows_size(data.len())
        }),
{
    whole_pieces_are_accepted(download, piece);
    piece_runs(download, piece);
    assert(download.files.len() == download.files@.len());
    let lengths = layout::lengths_of(download.files@);
    storage::parts_hold_run(
        disk,
        lengths,
        download.piece_start(piece),
        download.piece_end(piece),
    );
    storage::torrent_length(disk, lengths);
}

/// The bytes of the first pieces, as they are read one after the other.
pub open spec fn pieces_read(download: Download, disk: Seq<Seq<u8>>, count: int) -> Seq<Seq<u8>> {
    Seq::new(
        count as nat,
        |piece: int| parsing::joined(storage::read(disk, download.piece_parts(piece))),
    )
}

/// The first pieces are the start of the torrent.
proof fn first_pieces_are_prefix(download: Download, disk: Seq<Seq<u8>>, count: int)
    requires
        download.wf(),
        storage::have_lengths(disk, layout::lengths_of(download.files@)),
        0 < count <= download.num_pieces,
    ensures
        parsing::joined(pieces_read(download, disk, count)) == storage::torrent_bytes(disk).take(
            download.piece_end(count - 1),
        ),
    decreases count,
{
    let whole = storage::torrent_bytes(disk);
    let last = count - 1;
    let read = pieces_read(download, disk, count);
    piece_runs(download, last);
    pieces_are_read_whole(download, disk, last);
    storage::torrent_length(disk, layout::lengths_of(download.files@));
    assert(read.drop_last() =~= pieces_read(download, disk, last));
    let data = whole.subrange(download.piece_start(last), download.piece_end(last));
    assert(read.last() == data);
    if last == 0 {
        assert(download.piece_start(0) == 0) by (nonlinear_arith)
            requires
                download.piece_start(0) == 0 * (download.piece_length as int),
        ;
        assert(read.drop_last() =~= Seq::<Seq<u8>>::empty());
        assert(data =~= whole.take(download.piece_end(0)));
        assert(parsing::joined(read.drop_last()) =~= Seq::<u8>::empty());
        assert(parsing::joined(read) =~= data);
    } else {
        first_pieces_are_prefix(download, disk, last);
        let total = download.length as int;
        let piece_length = download.piece_length as int;
        blocks::pieces_tile_torrent(last - 1, total, piece_length);
        piece_runs(download, last - 1);
        assert(download.piece_end(last - 1) == download.piece_start(last));
        assert(parsing::joined(read) == whole.take(download.piece_start(last)) + data);
        assert(whole.take(download.piece_start(last)) + data =~= whole.take(
            download.piece_end(last),
        ));
    }
}

/// The pieces, read one after the other, are the whole torrent.
pub proof fn pieces_join_to_torrent(download: Download, disk: Seq<Seq<u8>>)
    requires
        download.wf(),
        storage::have_lengths(disk, layout::lengths_of(download.files@)),
    ensures
        parsing::joined(pieces_read(download, disk, download.num_pieces as int))
            == storage::torrent_bytes(disk),
{
    let total = download.length as int;
    let piece_length = download.piece_length as int;
    let whole = storage::torrent_bytes(disk);
    let count = download.num_pieces as int;
    storage::torrent_length(disk, layout::lengths_of(download.files@));
    if total == 0 {
        div_mod::lemma_small_mod(0, piece_length as nat);
        div_mod::lemma_basic_div(0, piece_length);
        assert(pieces_read(download, disk, count) =~= Seq::<Seq<u8>>::empty());
        assert(whole =~= Seq::<u8>::empty());
    } else {
        blocks::ceil_div_covers(total, piece_length);
        first_pieces_are_prefix(download, disk, count);
        piece_runs(download, count - 1);
        blocks::pieces_tile_torrent(count - 1, total, piece_length);
        assert(whole.take(total) =~= whole);
    }
}

/// A block that lies inside its piece is written to bytes that are read with the piece.
pub proof fn blocks_lie_in_their_piece(
    download: Download,
    metadata: Metadata,
    piece: int,
    begin: int,
    length: int,
)
    requires
        download.wf(),
        download.piece_length == metadata.info.piece_length,
        download.length == metadata.info.torr_type.total(),
        0 <= piece < download.num_pieces,
        0 <= begin,
        0 <= length,
        begin + length <= blocks::piece_size(
            piece,
            download.length as int,
            download.piece_length as int,
        ),
    ensures
        download.piece_start(piece) <= metadata.position(piece, begin),
        metadata.position(piece, begin + length) <= download.piece_end(piece),
{
    piece_runs(download, piece);
}

/// That the whole download is complete is told exactly when every piece is, and that a piece is
/// complete exactly when it has become so.
pub proof fn progress_is_told(before: Seq<bool>, now: Seq<bool>, piece: u32)
    ensures
        progress(before, now, piece).contains(ThreadUpdate::FileComplete)
            <==> connection::complete(now),
        progress(before, now, piece).contains(ThreadUpdate::Completed(piece)) <==> now[piece as int]
            && !before[piece as int],
{
    let told = progress(before, now, piece);
    if now[piece as int] && !before[piece as int] {
        assert(told[0] == ThreadUpdate::Completed(piece));
    }
    if connection::complete(now) {
        assert(told[told.len() - 1] == ThreadUpdate::FileComplete);
    }
}

/// The last piece that becomes complete makes the download complete.
pub proof fn last_piece_completes(bits: Seq<bool>, piece: int)
    requires
        0 <= piece < bits.len(),
        forall|i: int| 0 <= i < bits.len() && i != piece ==> bits[i],
    ensures
        connection::complete(bits.update(piece, true)),
{
}

/// The listed pieces are exactly those that are complete now and were not before, each once and in
/// ascending order.
pub proof fn newly_complete_pieces_are_listed(before: Seq<bool>, now: Seq<bool>, upto: int)
    requires
        0 <= upto <= before.len(),
        upto <= now.len(),
        upto <= usize::MAX,
    ensures
        forall|p: usize| #[trigger]
            newly_set(before, now, upto).contains(p) <==> p < upto && now[p as int]
                && !before[p as int],
        forall|i: int, j: int|
            0 <= i < j < newly_set(before, now, upto).len() ==> #[trigger] newly_set(
                before,
                now,
                upto,
            )[i] < #[trigger] newly_set(before, now, upto)[j],
    decreases upto,
{
    if upto > 0 {
        newly_complete_pieces_are_listed(before, now, upto - 1);
        let found = newly_set(before, now, upto - 1);
        let all = newly_set(before, now, upto);
        let last = (upto - 1) as usize;
        assert forall|p: usize| #[trigger] all.contains(p) <==> p < upto && now[p as int]
            && !before[p as int] by {
            assert(found.contains(p) <==> p < upto - 1 && now[p as int] && !before[p as int]);
            if found.contains(p) {
                let i = found.index_of(p);
                assert(all[i] == p);
            }
            if now[last as int] && !before[last as int] {
                assert(all[all.len() - 1] == last);
            }
            if all.contains(p) && p != last {
                let i = all.index_of(p);
                assert(found[i] == p);
            }
        }
        assert forall|i: int, j: int| 0 <= i < j < all.len() implies #[trigger] all[i]
            < #[trigger] all[j] by {
            assert(found[i] == all[i]);
            if j < found.len() {
                assert(found[j] == all[j]);
            } else {
                assert(found.contains(found[i]));
            }
        }
    }
}

/// A piece is complete exactly when each of the twenty bytes of its hash is the one that the torrent
/// gives.
pub proof fn pieces_are_judged_by_every_byte(download: Download, piece: int, hash: Seq<u8>)
    requires
        0 <= piece < download.piece_hashes@.len(),
        hash.len() == 20,
    ensures
        download.piece_hashes@[piece] == download.piece_hashes.0@[piece]@,
        download.matches(piece, hash) <==> (forall|k: int|
            0 <= k < 20 ==> #[trigger] hash[k] == download.piece_hashes.0@[piece]@[k]),
{
    let given = download.piece_hashes.0@[piece]@;
    assert(given.len() == 20);
    if forall|k: int| 0 <= k < 20 ==> #[trigger] hash[k] == given[k] {
        assert(hash =~= given);
    }
}

/// Of a piece that has been read back, at most two things are told: that it is complete, where it was
/// not before, and then that the download is, where no piece is missing any more. Nothing else is
/// told, and each thing at most once.
pub proof fn nothing_but_progress_is_told(before: Seq<bool>, now: Seq<bool>, piece: u32)
    ensures
        ({
            let told = progress(before, now, piece);
            let completed = now[piece as int] && !before[piece as int];
            let done = forall|i: int| 0 <= i < now.len() ==> #[trigger] now[i];
            &&& told.len() == (if completed { 1int } else { 0 }) + (if done { 1int } else { 0 })
            &&& completed ==> told[0] == ThreadUpdate::Completed(piece)
            &&& done ==> told[told.len() - 1] == ThreadUpdate::FileComplete
        }),
{
}

/// A set of pieces is complete exactly when as many pieces are in it as there are.
pub proof fn complete_downloads_have_every_piece(pieces: Seq<bool>)
    ensures
        connection::complete(pieces) <==> bits::ones_in(pieces) == pieces.len(),
        connection::complete(pieces) <==> !(exists|i: int|
            0 <= i < pieces.len() && !#[trigger] pieces[i]),
{
    bits::all_ones_by_count(pieces);
    if !connection::complete(pieces) {
        let i = choose|i: int| 0 <= i < pieces.len() && !pieces[i];
        assert(!pieces[i]);
    }
}

/// A piece is read back exactly when a block of it has been written, and reported exactly when it is
/// complete. The watch ends with the download, or when nobody can send any more.
pub proof fn downloads_are_watched_to_the_end(update: Result<ThreadUpdate, RecvError>, piece: u32)
    ensures
        step_after(update) == Monitor::Check(piece) <==> (update matches Ok(told)
            && told matches ThreadUpdate::Downloaded(p, _) && p == piece),
        step_after(update) == Monitor::Report(piece) <==> update == Ok::<ThreadUpdate, RecvError>(
            ThreadUpdate::Completed(piece),
        ),
        step_after(update) == Monitor::Stop <==> update == Ok::<ThreadUpdate, RecvError>(
            ThreadUpdate::FileComplete,
        ) || update == Err::<ThreadUpdate, RecvError>(RecvError::Closed),
{
}

/// The data of a piece is accepted exactly when it has the length of a full piece, or is shorter and
/// has the length that is left of the torrent after some number of full pieces.
pub proof fn sizes_are_those_of_pieces(download: Download, size: nat)
    requires
        download.wf(),
    ensures
        download.allows_size(size) <==> size == download.piece_length || size
            < download.piece_length && exists|k: int|
            k >= 0 && download.length == #[trigger] (k * download.piece_length) + size,
{
    let total = download.length as int;
    let piece_length = download.piece_length as int;
    div_mod::lemma_fundamental_div_mod(total, piece_length);
    div_mod::lemma_mod_bound(total, piece_length);
    if download.allows_size(size) && size != piece_length {
        let k = total / piece_length;
        div_mod::lemma_div_pos_is_pos(total, piece_length);
        assert(k * piece_length == piece_length * k) by (nonlinear_arith);
        assert(download.length == k * download.piece_length + size);
    }
    if size < piece_length && exists|k: int|
        k >= 0 && download.length == #[trigger] (k * download.piece_length) + size {
        let k = choose|k: int|
            k >= 0 && download.length == #[trigger] (k * download.piece_length) + size;
        div_mod::lemma_fundamental_div_mod_converse(total, piece_length, k, size as int);
    }
}

/// A piece that has been read back is complete exactly when its hash is right, even if it was held to
/// be complete before, and no other piece is touched. To read back all pieces judges each of them by
/// its own hash, whatever was held of it before.
pub proof fn pieces_are_judged_anew(
    download: Download,
    piece: int,
    other: int,
    good: bool,
    hashes: Seq<Seq<u8>>,
)
    requires
        download.wf(),
        0 <= piece < download.num_pieces,
        0 <= other < download.num_pieces,
    ensures
        checked(download.bitvec@, piece, good).len() == download.num_pieces,
        checked(download.bitvec@, piece, good)[piece] == good,
        other != piece ==> checked(download.bitvec@, piece, good)[other] == download.bitvec@[other],
        download.judged(hashes).len() == download.num_pieces,
        download.judged(hashes)[piece] <==> hashes[piece] == download.piece_hashes@[piece],
{
}

/// The data of a piece is what its parts hold, one after the other and none left out.
pub proof fn parts_are_put_together_in_order(parts: Seq<Vec<u8>>, part: Vec<u8>)
    ensures
        parsing::joined(contents(Seq::empty())) == Seq::<u8>::empty(),
        parsing::joined(contents(parts.push(part))) == parsing::joined(contents(parts)) + part@,
{
    assert(contents(parts.push(part)) =~= contents(parts).push(part@));
    parsing::joining_appends(contents(parts), part@);
    assert(contents(Seq::empty()) =~= Seq::<Seq<u8>>::empty());
}

} // verus!
