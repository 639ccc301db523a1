//! The contents of a torrent file.
use crate::digest;
use crate::layout;
use crate::layout::FileSlice;
use crate::peer::blocks;
use crate::wire;
use vstd::prelude::*;

verus! {

/// What a torrent file says.
#[derive(Debug, Clone)]
pub struct Metadata {
    /// The address of the tracker.
    pub announce: String,
    /// More addresses of trackers.
    pub announce_list: Option<Vec<String>>,
    /// The files of the torrent.
    pub info: TorrInfo,
    /// When the torrent was made, in seconds since the first of January 1970, in UTC.
    pub creation_date: Option<u64>,
    /// The encoding of the strings in `info`.
    pub encoding: Option<String>,
    /// What the author has to say.
    pub comment: Option<String>,
    /// The program that made the torrent.
    pub created_by: Option<String>,
}

/// The files of a torrent and the hashes of its pieces.
#[derive(Debug, Clone)]
pub struct TorrInfo {
    /// The number of bytes in a piece, except for the last one.
    pub piece_length: u64,
    /// The hash of each piece.
    pub pieces: Hashes,
    /// Where this is 1, peers may only come from the trackers that the torrent names.
    pub private: Option<usize>,
    /// The name of the file or, where there are several, of their directory.
    pub name: String,
    /// One file, or several.
    pub torr_type: FileTypes,
}

/// The hashes of the pieces, first piece first.
#[derive(Debug, Clone)]
pub struct Hashes(pub Vec<[u8; 20]>);

/// The files of a torrent.
#[derive(Debug, Clone)]
pub enum FileTypes {
    /// One file, without a directory.
    SingleFile {
        /// The number of bytes in the file.
        length: usize,
        /// The MD5 sum of the file, as 32 hexadecimal digits. Nothing here reads it.
        md5sum: Option<String>,
    },
    /// Several files.
    MultiFile {
        /// The files, in the order in which their bytes follow each other.
        files: Vec<File>,
    },
}

/// A file of a torrent that has several.
#[derive(Debug, Clone)]
pub struct File {
    /// The number of bytes in the file.
    pub length: usize,
    /// The directories that lead to the file, then its name. An empty path is an error.
    pub path: Vec<String>,
}

impl FileTypes {
    /// The number of bytes in all files.
    pub open spec fn total(self) -> nat {
        match self {
            FileTypes::SingleFile { length, .. } => length as nat,
            FileTypes::MultiFile { files } => layout::total_of(layout::lengths_of(files@)),
        }
    }

    /// The lengths of the files.
    pub open spec fn lengths(self) -> Seq<nat> {
        match self {
            FileTypes::SingleFile { length, .. } => seq![length as nat],
            FileTypes::MultiFile { files } => layout::lengths_of(files@),
        }
    }

    /// The files can be counted.
    pub proof fn lengths_fit(&self)
        ensures
            self.lengths().len() <= usize::MAX,
    {
        match self {
            FileTypes::SingleFile { .. } => {},
            FileTypes::MultiFile { files } => {
                assert(files.len() == files@.len());
            },
        }
    }

    /// The number of bytes in all files.
    pub fn len(&self) -> (len: u64)
        requires
            self.total() <= u64::MAX,
        ensures
            len == self.total(),
    {
        match self {
            FileTypes::SingleFile { length, .. } => *length as u64,
            FileTypes::MultiFile { files } => {
                let ghost lengths = layout::lengths_of(files@);
                let mut sum: u64 = 0;
                let mut i: usize = 0;
                assert(lengths.take(0) =~= Seq::<nat>::empty());
                while i < files.len()
                    invariant
                        i <= files@.len(),
                        lengths == layout::lengths_of(files@),
                        layout::total_of(lengths) <= u64::MAX,
                        sum == layout::start_of(lengths, i as int),
                    decreases files@.len() - i,
                {
                    proof {
                        layout::files_are_laid_end_to_end(lengths, i as int);
                        layout::totals_ascend(lengths, i + 1);
                    }
                    sum = sum + files[i].length as u64;
                    i = i + 1;
                }
                assert(lengths.take(i as int) =~= lengths);
                sum
            },
        }
    }

    /// Every one of several files has a path, the last part of which is its name.
    pub open spec fn have_names(self) -> bool {
        match self {
            FileTypes::SingleFile { .. } => true,
            FileTypes::MultiFile { files } => forall|i: int|
                0 <= i < files@.len() ==> (#[trigger] files@[i]).path@.len() > 0,
        }
    }

    /// An error where one of several files has an empty path.
    pub fn check_names(&self) -> (checked: Result<(), &'static str>)
        ensures
            match checked {
                Ok(()) => self.have_names(),
                Err(message) => !self.have_names() && message@ == "a file has no name"@,
            },
    {
        match self {
            FileTypes::SingleFile { .. } => Ok(()),
            FileTypes::MultiFile { files } => {
                let mut named: bool = true;
                let mut i: usize = 0;
                while i < files.len()
                    invariant
                        i <= files@.len(),
                        named == (forall|k: int|
                            0 <= k < i ==> (#[trigger] files@[k]).path@.len() > 0),
                    decreases files@.len() - i,
                {
                    if files[i].path.len() == 0 {
                        assert(files@[i as int].path@.len() == 0);
                        named = false;
                    }
                    i = i + 1;
                }
                if named {
                    Ok(())
                } else {
                    Err("a file has no name")
                }
            },
        }
    }

    /// Whether the files hold no byte.
    pub fn is_empty(&self) -> (empty: bool)
        requires
            self.total() <= u64::MAX,
        ensures
            empty == (self.total() == 0),
    {
        self.len() == 0
    }
}

impl View for Hashes {
    type V = Seq<Seq<u8>>;

    open spec fn view(&self) -> Seq<Seq<u8>> {
        self.0@.map_values(|hash: [u8; 20]| hash@)
    }
}

/// The byte strings of length 20 into which a byte string divides.
pub open spec fn chunks_of(value: Seq<u8>) -> Seq<Seq<u8>> {
    Seq::new(value.len() / 20, |i: int| value.subrange(20 * i, 20 * i + 20))
}

/// Byte strings, one after the other.
pub open spec fn joined(parts: Seq<Seq<u8>>) -> Seq<u8>
    decreases parts.len(),
{
    if parts.len() == 0 {
        Seq::empty()
    } else {
        joined(parts.drop_last()) + parts.last()
    }
}

impl Hashes {
    /// The hashes that a byte string holds, 20 bytes each.
    pub fn from_bytes(value: &[u8]) -> (hashes: Result<Hashes, &'static str>)
        ensures
            match hashes {
                Ok(hashes) => value@.len() % 20 == 0 && hashes@ == chunks_of(value@),
                Err(message) => value@.len() % 20 != 0 && message@
                    == "invalid length of hash string"@,
            },
    {
        if value.len() % 20 != 0 {
            return Err("invalid length of hash string");
        }
        let mut hashes: Vec<[u8; 20]> = Vec::new();
        let count: usize = value.len() / 20;
        let mut i: usize = 0;
        while i < count
            invariant
                i <= count,
                count == value@.len() / 20,
                value.len() == value@.len(),
                hashes@.len() == i,
                forall|k: int|
                    0 <= k < i ==> (#[trigger] hashes@[k])@ == value@.subrange(
                        20 * k,
                        20 * k + 20,
                    ),
            decreases count - i,
        {
            hashes.push(wire::twenty_at(value, 20 * i));
            i = i + 1;
        }
        let hashes = Hashes(hashes);
        assert(hashes@ =~= chunks_of(value@));
        Ok(hashes)
    }

    /// The same hashes once more.
    pub fn copy(&self) -> (hashes: Hashes)
        ensures
            hashes@ == self@,
    {
        let mut hashes: Vec<[u8; 20]> = Vec::new();
        let mut i: usize = 0;
        while i < self.0.len()
            invariant
                i <= self.0@.len(),
                hashes@ =~= self.0@.take(i as int),
            decreases self.0@.len() - i,
        {
            hashes.push(self.0[i]);
            i = i + 1;
        }
        assert(hashes@ =~= self.0@);
        Hashes(hashes)
    }

    /// The hashes as one byte string.
    pub fn to_bytes(&self) -> (bytes: Vec<u8>)
        ensures
            bytes@ == joined(self@),
    {
        let mut bytes: Vec<u8> = Vec::new();
        let mut i: usize = 0;
        assert(self@.take(0) =~= Seq::<Seq<u8>>::empty());
        while i < self.0.len()
            invariant
                i <= self.0@.len(),
                bytes@ == joined(self@.take(i as int)),
            decreases self.0@.len() - i,
        {
            let hash = self.0[i];
            wire::append(&mut bytes, hash.as_slice());
            assert(self@.take(i + 1).drop_last() =~= self@.take(i as int));
            i = i + 1;
        }
        assert(self@.take(i as int) =~= self@);
        bytes
    }
}

/// A single file holds all bytes.
proof fn one_length(length: nat)
    ensures
        layout::total_of(seq![length]) == length,
{
    assert(seq![length].drop_last() =~= Seq::<nat>::empty());
    assert(layout::total_of(Seq::<nat>::empty()) == 0);
}

/// The lengths of the files add up to the number of bytes.
pub proof fn lengths_add_up(files: FileTypes)
    ensures
        layout::total_of(files.lengths()) == files.total(),
{
    if let FileTypes::SingleFile { length, .. } = files {
        one_length(length as nat);
    }
}

/// Byte strings of length 20 that are joined have the length of all of them.
proof fn joined_length(hashes: Seq<Seq<u8>>)
    requires
        forall|i: int| 0 <= i < hashes.len() ==> (#[trigger] hashes[i]).len() == 20,
    ensures
        joined(hashes).len() == 20 * hashes.len(),
    decreases hashes.len(),
{
    if hashes.len() > 0 {
        joined_length(hashes.drop_last());
    }
}

/// Hashes that are written as one byte string and read back are the same hashes.
pub proof fn hashes_round_trip(hashes: Seq<Seq<u8>>)
    requires
        forall|i: int| 0 <= i < hashes.len() ==> (#[trigger] hashes[i]).len() == 20,
    ensures
        joined(hashes).len() % 20 == 0,
        chunks_of(joined(hashes)) == hashes,
    decreases hashes.len(),
{
    joined_length(hashes);
    if hashes.len() > 0 {
        let front = hashes.drop_last();
        hashes_round_trip(front);
        joined_length(front);
        let whole = joined(hashes);
        assert forall|i: int| 0 <= i < hashes.len() implies #[trigger] chunks_of(whole)[i]
            == hashes[i] by {
            if i < front.len() {
                assert(chunks_of(joined(front))[i] == front[i]);
                assert(whole.subrange(20 * i, 20 * i + 20) =~= joined(front).subrange(
                    20 * i,
                    20 * i + 20,
                ));
            } else {
                assert(whole.subrange(20 * i, 20 * i + 20) =~= hashes[i]);
            }
        }
    }
    assert(chunks_of(joined(hashes)) =~= hashes);
}

/// A byte string that is read as hashes and written back is the same byte string.
pub proof fn hash_strings_round_trip(value: Seq<u8>)
    requires
        value.len() % 20 == 0,
    ensures
        joined(chunks_of(value)) == value,
    decreases value.len(),
{
    if value.len() == 0 {
        assert(chunks_of(value) =~= Seq::<Seq<u8>>::empty());
    } else {
        let n = value.len() / 20;
        let front = value.take(value.len() - 20);
        hash_strings_round_trip(front);
        assert(chunks_of(value).drop_last() =~= chunks_of(front)) by {
            assert forall|i: int| 0 <= i < n - 1 implies value.subrange(20 * i, 20 * i + 20)
                == #[trigger] front.subrange(20 * i, 20 * i + 20) by {
                assert(value.subrange(20 * i, 20 * i + 20) =~= front.subrange(
                    20 * i,
                    20 * i + 20,
                ));
            }
        }
        assert(chunks_of(value).last() =~= value.skip(value.len() - 20));
        assert(front + value.skip(value.len() - 20) =~= value);
    }
}

impl Metadata {
    /// The sizes are such that the pieces can be counted.
    pub open spec fn wf(self) -> bool {
        &&& self.info.torr_type.total() <= u64::MAX
        &&& self.info.torr_type.total() <= usize::MAX
        &&& 0 < self.info.piece_length <= usize::MAX
    }

    /// The number of pieces.
    pub open spec fn piece_count(self) -> int {
        blocks::pieces_in(self.info.torr_type.total() as int, self.info.piece_length as int)
    }

    /// The number of pieces.
    pub fn num_pieces(&self) -> (count: usize)
        requires
            self.wf(),
        ensures
            count == self.piece_count(),
    {
        let total: u64 = self.info.torr_type.len();
        proof {
            if total > 0 {
                blocks::ceil_div_covers(total as int, self.info.piece_length as int);
            }
        }
        blocks::div_ceil(total, self.info.piece_length) as usize
    }

    /// The position in the torrent of a byte of a piece.
    pub open spec fn position(self, piece: int, begin: int) -> int {
        piece * self.info.piece_length + begin
    }

    /// Finds the bytes of a block in the files, given its piece, its first byte in the piece and its
    /// length. A block that reaches past the end of the torrent is an error.
    pub fn file_info_from_piece_block(&self, piece: u64, begin: u64, length: u64) -> (found: Result<
        Vec<FileSlice>,
        &'static str,
    >)
        requires
            self.wf(),
        ensures
            match found {
                Ok(found) => {
                    &&& self.position(piece as int, begin + length) <= self.info.torr_type.total()
                    &&& found@ == layout::parts(
                        self.info.torr_type.lengths(),
                        self.info.torr_type.lengths().len() as int,
                        self.position(piece as int, begin as int),
                        self.position(piece as int, begin + length),
                    )
                },
                Err(message) => {
                    &&& self.position(piece as int, begin + length) > self.info.torr_type.total()
                    &&& message@ == "Block lies outside of the torrent"@
                },
            },
    {
        let piece_length: u64 = self.info.piece_length;
        proof {
            assert(0 <= piece * piece_length <= 0xffff_ffff_ffff_ffff * 0xffff_ffff_ffff_ffff)
                by (nonlinear_arith)
                requires
                    0 <= piece <= 0xffff_ffff_ffff_ffff,
                    0 <= piece_length <= 0xffff_ffff_ffff_ffff,
            ;
        }
        let start: u128 = piece as u128 * piece_length as u128 + begin as u128;
        let end: u128 = start + length as u128;
        if end > self.info.torr_type.len() as u128 {
            return Err("Block lies outside of the torrent");
        }
        match &self.info.torr_type {
            FileTypes::SingleFile { length: file_length, .. } => {
                let mut files: Vec<File> = Vec::new();
                files.push(File { length: *file_length, path: Vec::new() });
                proof {
                    let lengths = layout::lengths_of(files@);
                    assert(lengths =~= self.info.torr_type.lengths());
                    one_length(*file_length as nat);
                }
                Ok(layout::parts_of(&files, start as u64, end as u64))
            },
            FileTypes::MultiFile { files } => Ok(layout::parts_of(files, start as u64, end as u64)),
        }
    }

    /// The hash of the torrent: that of its serialised `info`.
    pub fn info_hash(serialized: &[u8]) -> (hash: [u8; 20])
        ensures
            hash@ == digest::sha1_of(serialized@),
    {
        digest::sha1_digest(serialized)
    }
}

/// A block that lies inside the torrent is found whole: its parts hold as many bytes as it does, each
/// lies in its file, and each begins in the torrent where the parts before it end.
pub proof fn blocks_are_found_whole(metadata: Metadata, piece: int, begin: int, length: int, k: int)
    requires
        metadata.wf(),
        0 <= piece,
        0 <= begin,
        0 <= length,
        metadata.position(piece, begin + length) <= metadata.info.torr_type.total(),
    ensures
        ({
            let lengths = metadata.info.torr_type.lengths();
            let start = metadata.position(piece, begin);
            let found = layout::parts(
                lengths,
                lengths.len() as int,
                start,
                metadata.position(piece, begin + length),
            );
            &&& layout::bytes_in(found) == length
            &&& 0 <= k < found.len() ==> {
                &&& found[k].file < lengths.len()
                &&& found[k].offset + found[k].length <= lengths[found[k].file as int]
                &&& layout::start_of(lengths, found[k].file as int) + found[k].offset == start
                    + layout::bytes_in(found.take(k))
            }
        }),
{
    let lengths = metadata.info.torr_type.lengths();
    let piece_length = metadata.info.piece_length as int;
    lengths_add_up(metadata.info.torr_type);
    metadata.info.torr_type.lengths_fit();
    assert(0 <= piece * piece_length) by (nonlinear_arith)
        requires
            0 <= piece,
            0 <= piece_length,
    ;
    let start = metadata.position(piece, begin);
    let end = metadata.position(piece, begin + length);
    layout::parts_cover_run(lengths, start, end);
    let found = layout::parts(lengths, lengths.len() as int, start, end);
    if 0 <= k < found.len() {
        layout::parts_are_contiguous(lengths, lengths.len() as int, start, end, k);
    }
}

/// Hash `i` of a byte string is its bytes from `20 * i` on, twenty of them.
pub proof fn hashes_stand_in_order(value: Seq<u8>, i: int, k: int)
    requires
        0 <= i < value.len() / 20,
        0 <= k < 20,
    ensures
        20 * chunks_of(value).len() <= value.len() < 20 * chunks_of(value).len() + 20,
        chunks_of(value)[i].len() == 20,
        chunks_of(value)[i][k] == value[20 * i + k],
{
}

/// A byte string more is put at the end of what is joined.
pub proof fn joining_appends(parts: Seq<Seq<u8>>, part: Seq<u8>)
    ensures
        joined(Seq::empty()) == Seq::<u8>::empty(),
        joined(parts.push(part)) == joined(parts) + part,
{
    assert(parts.push(part).drop_last() =~= parts);
}

/// A torrent begins with the first byte of its first piece, the next byte of a piece is the next one
/// of the torrent, and the same byte of the next piece lies a piece length further on.
pub proof fn positions_count_bytes(metadata: Metadata, piece: int, begin: int)
    ensures
        metadata.position(0, 0) == 0,
        metadata.position(piece, begin + 1) == metadata.position(piece, begin) + 1,
        metadata.position(piece + 1, begin) == metadata.position(piece, begin)
            + metadata.info.piece_length,
{
    let piece_length = metadata.info.piece_length as int;
    assert((piece + 1) * piece_length == piece * piece_length + piece_length) by (nonlinear_arith);
    assert(0 * piece_length == 0);
}

/// One file has the length of the torrent. Of several, each has its own length, and the torrent has
/// that of all of them.
pub proof fn files_have_their_lengths(files: FileTypes)
    ensures
        match files {
            FileTypes::SingleFile { length, .. } => files.total() == length && files.lengths()
                == seq![length as nat],
            FileTypes::MultiFile { files: listed } => {
                &&& files.lengths().len() == listed@.len()
                &&& forall|i: int|
                    0 <= i < listed@.len() ==> #[trigger] files.lengths()[i] == listed@[i].length
            },
        },
        layout::total_of(files.lengths()) == files.total(),
        files.have_names() <==> (files matches FileTypes::MultiFile { files: listed }
            ==> forall|i: int| 0 <= i < listed@.len() ==> (#[trigger] listed@[i]).path@.len() != 0),
{
    lengths_add_up(files);
}

/// The pieces are as many as it takes to hold the torrent, and no more.
pub proof fn pieces_hold_the_torrent(metadata: Metadata)
    requires
        metadata.wf(),
    ensures
        metadata.info.torr_type.total() <= metadata.piece_count() * metadata.info.piece_length,
        metadata.piece_count() > 0 ==> (metadata.piece_count() - 1) * metadata.info.piece_length
            < metadata.info.torr_type.total(),
        metadata.piece_count() == 0 <==> metadata.info.torr_type.total() == 0,
{
    let total = metadata.info.torr_type.total() as int;
    let piece_length = metadata.info.piece_length as int;
    if total > 0 {
        blocks::ceil_div_covers(total, piece_length);
    } else {
        vstd::arithmetic::div_mod::lemma_small_mod(0, piece_length as nat);
        vstd::arithmetic::div_mod::lemma_basic_div(0, piece_length);
        assert(metadata.piece_count() == 0);
        assert(0 * piece_length == 0);
    }
}

} // verus!
