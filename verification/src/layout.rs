//! Where the bytes of a torrent lie in its files, which are laid end to end.
use crate::parsing::File;
use vstd::prelude::*;

verus! {

/// A run of bytes in one of the files.
#[derive(Copy, Clone, Debug, PartialEq, Eq, Structural)]
pub struct FileSlice {
    /// The index of the file.
    pub file: usize,
    /// The position in the file of the first byte.
    pub offset: u64,
    /// The number of bytes.
    pub length: u64,
}

/// The lengths of files.
pub open spec fn lengths_of(files: Seq<File>) -> Seq<nat> {
    files.map_values(|file: File| file.length as nat)
}

/// The number of bytes in all files, which is also the position at which one more would start.
pub open spec fn total_of(lengths: Seq<nat>) -> nat
    decreases lengths.len(),
{
    if lengths.len() == 0 {
        0
    } else {
        total_of(lengths.drop_last()) + lengths.last()
    }
}

/// The position in the torrent at which file `file` starts.
pub open spec fn start_of(lengths: Seq<nat>, file: int) -> nat {
    total_of(lengths.take(file))
}

/// The bytes from `start` to `end` and the bytes of file `file` meet.
pub open spec fn meets(lengths: Seq<nat>, file: int, start: int, end: int) -> bool {
    start < start_of(lengths, file + 1) && start_of(lengths, file) < end
}

/// The part of the bytes from `start` to `end` that lies in file `file`.
pub open spec fn part_in(lengths: Seq<nat>, file: int, start: int, end: int) -> FileSlice {
    let file_start = start_of(lengths, file) as int;
    let file_end = start_of(lengths, file + 1) as int;
    let from = if start < file_start {
        file_start
    } else {
        start
    };
    let to = if end < file_end {
        end
    } else {
        file_end
    };
    FileSlice { file: file as usize, offset: (from - file_start) as u64, length: (to - from) as u64 }
}

/// The parts of the bytes from `start` to `end` that lie in the first `upto` files, in their order.
pub open spec fn parts(lengths: Seq<nat>, upto: int, start: int, end: int) -> Seq<FileSlice>
    decreases upto,
{
    if upto <= 0 {
        Seq::empty()
    } else {
        let before = parts(lengths, upto - 1, start, end);
        if meets(lengths, upto - 1, start, end) {
            before.push(part_in(lengths, upto - 1, start, end))
        } else {
            before
        }
    }
}

/// The number of bytes in all parts.
pub open spec fn bytes_in(parts: Seq<FileSlice>) -> nat
    decreases parts.len(),
{
    if parts.len() == 0 {
        0
    } else {
        bytes_in(parts.drop_last()) + parts.last().length as nat
    }
}

/// The first parts hold no more bytes than all of them.
pub proof fn bytes_ascend(parts: Seq<FileSlice>, upto: int)
    requires
        0 <= upto <= parts.len(),
    ensures
        bytes_in(parts.take(upto)) <= bytes_in(parts),
    decreases parts.len() - upto,
{
    if upto < parts.len() {
        bytes_ascend(parts, upto + 1);
        assert(parts.take(upto + 1).drop_last() =~= parts.take(upto));
    } else {
        assert(parts.take(upto) =~= parts);
    }
}

/// Each file starts where the one before it ends.
pub proof fn files_are_laid_end_to_end(lengths: Seq<nat>, file: int)
    requires
        0 <= file < lengths.len(),
    ensures
        start_of(lengths, 0) == 0,
        start_of(lengths, file + 1) == start_of(lengths, file) + lengths[file],
        start_of(lengths, lengths.len() as int) == total_of(lengths),
{
    assert(lengths.take(0) =~= Seq::<nat>::empty());
    assert(lengths.take(file + 1).drop_last() =~= lengths.take(file));
    assert(lengths.take(lengths.len() as int) =~= lengths);
}

/// A file starts no earlier than the files before it.
pub proof fn starts_ascend(lengths: Seq<nat>, a: int, b: int)
    requires
        0 <= a <= b <= lengths.len(),
    ensures
        start_of(lengths, a) <= start_of(lengths, b),
    decreases b - a,
{
    if a < b {
        starts_ascend(lengths, a, b - 1);
        files_are_laid_end_to_end(lengths, b - 1);
    }
}

/// The total grows with the list.
pub proof fn totals_ascend(lengths: Seq<nat>, upto: int)
    requires
        0 <= upto <= lengths.len(),
    ensures
        start_of(lengths, upto) <= total_of(lengths),
{
    starts_ascend(lengths, upto, lengths.len() as int);
    assert(lengths.take(lengths.len() as int) =~= lengths);
}

/// What was found so far covers the bytes from `start` up to where the files seen so far end.
proof fn parts_cover_prefix(lengths: Seq<nat>, upto: int, start: int, end: int)
    requires
        0 <= upto <= lengths.len(),
        0 <= start <= end <= total_of(lengths),
        total_of(lengths) <= u64::MAX,
        lengths.len() <= usize::MAX,
    ensures
        bytes_in(parts(lengths, upto, start, end)) == (if start_of(lengths, upto) <= start {
            0
        } else if start_of(lengths, upto) <= end {
            start_of(lengths, upto) - start
        } else {
            end - start
        }),
    decreases upto,
{
    if upto == 0 {
        assert(lengths.take(0) =~= Seq::<nat>::empty());
    } else {
        parts_cover_prefix(lengths, upto - 1, start, end);
        files_are_laid_end_to_end(lengths, upto - 1);
        totals_ascend(lengths, upto);
        let before = parts(lengths, upto - 1, start, end);
        if meets(lengths, upto - 1, start, end) {
            let part = part_in(lengths, upto - 1, start, end);
            assert(before.push(part).drop_last() =~= before);
        }
    }
}

/// The parts of a run of bytes hold as many bytes as the run.
pub proof fn parts_cover_run(lengths: Seq<nat>, start: int, end: int)
    requires
        0 <= start <= end <= total_of(lengths),
        total_of(lengths) <= u64::MAX,
        lengths.len() <= usize::MAX,
    ensures
        bytes_in(parts(lengths, lengths.len() as int, start, end)) == end - start,
{
    parts_cover_prefix(lengths, lengths.len() as int, start, end);
    assert(lengths.take(lengths.len() as int) =~= lengths);
}

/// Each part lies inside its file, and starts in the torrent where the parts before it end.
pub proof fn parts_are_contiguous(lengths: Seq<nat>, upto: int, start: int, end: int, k: int)
    requires
        0 <= upto <= lengths.len(),
        0 <= start <= end <= total_of(lengths),
        total_of(lengths) <= u64::MAX,
        lengths.len() <= usize::MAX,
        0 <= k < parts(lengths, upto, start, end).len(),
    ensures
        ({
            let found = parts(lengths, upto, start, end);
            let part = found[k];
            &&& part.file < upto
            &&& part.offset + part.length <= lengths[part.file as int]
            &&& start_of(lengths, part.file as int) + part.offset == start + bytes_in(found.take(k))
        }),
    decreases upto,
{
    if upto > 0 {
        let found = parts(lengths, upto, start, end);
        let before = parts(lengths, upto - 1, start, end);
        files_are_laid_end_to_end(lengths, upto - 1);
        totals_ascend(lengths, upto);
        parts_cover_prefix(lengths, upto - 1, start, end);
        if k < before.len() {
            parts_are_contiguous(lengths, upto - 1, start, end, k);
            assert(found.take(k) =~= before.take(k));
        } else {
            assert(found.take(k) =~= before);
        }
    }
}

/// The parts of the bytes from `start` to `end`, file by file.
pub fn parts_of(files: &Vec<File>, start: u64, end: u64) -> (found: Vec<FileSlice>)
    requires
        start <= end,
        total_of(lengths_of(files@)) <= u64::MAX,
    ensures
        found@ == parts(lengths_of(files@), files@.len() as int, start as int, end as int),
{
    let ghost lengths = lengths_of(files@);
    let mut found: Vec<FileSlice> = Vec::new();
    let mut seen_length: u64 = 0;
    let mut i: usize = 0;
    assert(lengths.take(0) =~= Seq::<nat>::empty());
    while i < files.len()
        invariant
            i <= files@.len(),
            start <= end,
            lengths == lengths_of(files@),
            total_of(lengths) <= u64::MAX,
            seen_length == start_of(lengths, i as int),
            found@ == parts(lengths, i as int, start as int, end as int),
        decreases files@.len() - i,
    {
        proof {
            files_are_laid_end_to_end(lengths, i as int);
            totals_ascend(lengths, i + 1);
        }
        let file_start: u64 = seen_length;
        let file_end: u64 = seen_length + files[i].length as u64;
        if start < file_end && file_start < end {
            let offset: u64 = if start < file_start {
                0
            } else {
                start - file_start
            };
            let from: u64 = if start < file_start {
                file_start
            } else {
                start
            };
            let to: u64 = if end < file_end {
                end
            } else {
                file_end
            };
            found.push(FileSlice { file: i, offset, length: to - from });
        }
        seen_length = file_end;
        i = i + 1;
    }
    found
}

/// A file more adds its length to the total, and a part more adds its length to the bytes.
pub proof fn lengths_are_summed(lengths: Seq<nat>, length: nat, parts: Seq<FileSlice>, part: FileSlice)
    ensures
        total_of(Seq::empty()) == 0,
        total_of(lengths.push(length)) == total_of(lengths) + length,
        bytes_in(Seq::empty()) == 0,
        bytes_in(parts.push(part)) == bytes_in(parts) + part.length,
{
    assert(lengths.push(length).drop_last() =~= lengths);
    assert(parts.push(part).drop_last() =~= parts);
}

} // verus!
