//! One bit per piece, kept in a `bitvec` vector of bytes with the first piece in the high bit.
use bitvec::order::Msb0;
use bitvec::vec::BitVec;
use vstd::prelude::*;

verus! {

/// Bit `k` of a byte, counted from the most significant one.
pub open spec fn bit_of(byte: u8, k: int) -> bool {
    byte & (1u8 << ((7 - k) as u8)) != 0
}

/// Bit `i` of a byte string, counted from the most significant bit of its first byte.
pub open spec fn bit_at(bytes: Seq<u8>, i: int) -> bool {
    bit_of(bytes[i / 8], i % 8)
}

/// The number of set bits.
pub open spec fn ones_in(bits: Seq<bool>) -> nat
    decreases bits.len(),
{
    if bits.len() == 0 {
        0
    } else {
        ones_in(bits.drop_last()) + if bits.last() { 1nat } else { 0nat }
    }
}

/// The positions of the set bits, in ascending order.
pub open spec fn positions_of_ones(bits: Seq<bool>) -> Seq<usize>
    decreases bits.len(),
{
    if bits.len() == 0 {
        Seq::empty()
    } else {
        let before = positions_of_ones(bits.drop_last());
        if bits.last() {
            before.push((bits.len() - 1) as usize)
        } else {
            before
        }
    }
}

/// Every bit is set exactly when as many bits are set as there are.
pub proof fn all_ones_by_count(bits: Seq<bool>)
    ensures
        ones_in(bits) <= bits.len(),
        ones_in(bits) == bits.len() <==> (forall|i: int| 0 <= i < bits.len() ==> bits[i]),
    decreases bits.len(),
{
    if bits.len() > 0 {
        all_ones_by_count(bits.drop_last());
        let front = bits.drop_last();
        assert forall|i: int| 0 <= i < front.len() implies front[i] == bits[i] by {}
        if forall|i: int| 0 <= i < bits.len() ==> bits[i] {
            assert(bits.last());
            assert(forall|i: int| 0 <= i < front.len() ==> front[i]);
        }
        if ones_in(bits) == bits.len() {
            assert(bits.last());
            assert forall|i: int| 0 <= i < bits.len() implies bits[i] by {
                if i < front.len() {
                    assert(front[i]);
                }
            }
        }
    }
}

/// The listed positions are those of the set bits, each once and in ascending order.
pub proof fn positions_are_those_of_ones(bits: Seq<bool>)
    requires
        bits.len() <= usize::MAX,
    ensures
        forall|p: usize|
            #[trigger] positions_of_ones(bits).contains(p) <==> (p < bits.len() && bits[p as int]),
        forall|i: int, j: int|
            0 <= i < j < positions_of_ones(bits).len() ==> positions_of_ones(bits)[i]
                < positions_of_ones(bits)[j],
        positions_of_ones(bits).len() == ones_in(bits),
    decreases bits.len(),
{
    let all = positions_of_ones(bits);
    if bits.len() > 0 {
        let front = bits.drop_last();
        positions_are_those_of_ones(front);
        let before = positions_of_ones(front);
        let last = (bits.len() - 1) as usize;
        assert forall|i: int| 0 <= i < before.len() implies before[i] < last by {
            assert(before.contains(before[i]));
        }
        assert forall|p: usize| #[trigger]
            all.contains(p) <==> (p < bits.len() && bits[p as int]) by {
            assert(before.contains(p) <==> (p < front.len() && front[p as int]));
            if before.contains(p) {
                let i = before.index_of(p);
                assert(all[i] == p);
            }
            if p == last && bits.last() {
                assert(all[all.len() - 1] == p);
            }
        }
    }
}

/// A set of pieces: bit `i` tells whether piece `i` is in it.
#[verifier::external_body]
#[derive(Debug)]
pub struct PieceBits {
    bits: BitVec<u8, Msb0>,
}

/// The bits that a set of pieces holds, first piece first.
pub uninterp spec fn bits_of(pieces: PieceBits) -> Seq<bool>;

/// The bytes in which a set of pieces keeps its bits.
pub uninterp spec fn raw_of(pieces: PieceBits) -> Seq<u8>;

/// The bits of a byte string after the first `count` are zero.
pub open spec fn tail_is_clear(bytes: Seq<u8>, count: int) -> bool {
    forall|i: int| count <= i < 8 * bytes.len() ==> !#[trigger] bit_at(bytes, i)
}

/// The spare bits after the last piece are zero.
pub open spec fn spare_is_clear(pieces: PieceBits) -> bool {
    tail_is_clear(raw_of(pieces), bits_of(pieces).len() as int)
}

impl View for PieceBits {
    type V = Seq<bool>;

    open spec fn view(&self) -> Seq<bool> {
        bits_of(*self)
    }
}

/// The longest vector that `bitvec` can describe, in bits.
pub open spec fn max_bits() -> int {
    usize::MAX as int / 8
}

impl PieceBits {
    /// `BitVec::repeat`: `len` copies of one bit. The spare bits are copies of it too.
    #[verifier::external_body]
    pub(crate) fn repeat(bit: bool, len: usize) -> (pieces: Self)
        requires
            len <= max_bits(),
        ensures
            bits_of(pieces) == Seq::new(len as nat, |i: int| bit),
            !bit ==> spare_is_clear(pieces),
    {
        PieceBits { bits: BitVec::repeat(bit, len) }
    }

    /// `BitVec::from_slice`: the bits of a byte string, from the high bit of its first byte.
    #[verifier::external_body]
    pub(crate) fn from_slice(bytes: &[u8]) -> (pieces: Self)
        requires
            8 * bytes@.len() <= max_bits(),
        ensures
            bits_of(pieces) == Seq::new(8 * bytes@.len(), |i: int| bit_at(bytes@, i)),
    {
        PieceBits { bits: BitVec::from_slice(bytes) }
    }

    /// `BitSlice::to_bitvec` on the first `len` bits: a copy of them.
    #[verifier::external_body]
    pub(crate) fn prefix(&self, len: usize) -> (pieces: Self)
        requires
            len <= bits_of(*self).len(),
        ensures
            bits_of(pieces) == bits_of(*self).take(len as int),
    {
        PieceBits { bits: self.bits[..len].to_bitvec() }
    }

    /// `BitSlice::len`: the number of bits, which `bitvec` bounds.
    #[verifier::external_body]
    pub(crate) fn len(&self) -> (len: usize)
        ensures
            len == bits_of(*self).len(),
            len <= max_bits(),
    {
        self.bits.len()
    }

    /// `BitSlice::get`: the bit at `index`, or nothing past the end.
    #[verifier::external_body]
    pub(crate) fn get(&self, index: usize) -> (bit: Option<bool>)
        ensures
            bit == (if index < bits_of(*self).len() {
                Some(bits_of(*self)[index as int])
            } else {
                None
            }),
    {
        self.bits.get(index).as_deref().copied()
    }

    /// `BitSlice::set`: writes one bit.
    #[verifier::external_body]
    pub(crate) fn set(&mut self, index: usize, bit: bool)
        requires
            index < bits_of(*old(self)).len(),
        ensures
            bits_of(*final(self)) == bits_of(*old(self)).update(index as int, bit),
    {
        self.bits.set(index, bit)
    }

    /// `BitSlice::replace`: writes one bit and returns the one that stood there. The spare bits stay
    /// as they are.
    #[verifier::external_body]
    pub(crate) fn replace(&mut self, index: usize, bit: bool) -> (previous: bool)
        requires
            index < bits_of(*old(self)).len(),
        ensures
            bits_of(*final(self)) == bits_of(*old(self)).update(index as int, bit),
            previous == bits_of(*old(self))[index as int],
            spare_is_clear(*old(self)) ==> spare_is_clear(*final(self)),
    {
        self.bits.replace(index, bit)
    }

    /// `BitSlice::fill`: writes every bit.
    #[verifier::external_body]
    pub(crate) fn fill(&mut self, bit: bool)
        ensures
            bits_of(*final(self)) == Seq::new(bits_of(*old(self)).len(), |i: int| bit),
    {
        self.bits.fill(bit)
    }

    /// `BitSlice::count_ones`: how many bits are set.
    #[verifier::external_body]
    pub(crate) fn count_ones(&self) -> (count: usize)
        ensures
            count == ones_in(bits_of(*self)),
    {
        self.bits.count_ones()
    }

    /// `BitSlice::any`: whether some bit is set.
    #[verifier::external_body]
    pub(crate) fn any(&self) -> (some: bool)
        ensures
            some == (exists|i: int| 0 <= i < bits_of(*self).len() && bits_of(*self)[i]),
    {
        self.bits.any()
    }

    /// `BitSlice::all`: whether every bit is set.
    #[verifier::external_body]
    pub(crate) fn all(&self) -> (every: bool)
        ensures
            every == (forall|i: int| 0 <= i < bits_of(*self).len() ==> bits_of(*self)[i]),
    {
        self.bits.all()
    }

    /// `BitSlice::iter_ones`: the positions of the set bits, in ascending order.
    #[verifier::external_body]
    pub(crate) fn iter_ones(&self) -> (positions: Vec<usize>)
        ensures
            positions@ == positions_of_ones(bits_of(*self)),
    {
        self.bits.iter_ones().collect()
    }

    /// `BitVec::as_raw_slice`: the bytes that hold the bits, as many as it takes. Every vector made
    /// here starts at the high bit of its first byte.
    #[verifier::external_body]
    pub(crate) fn as_raw_slice(&self) -> (bytes: &[u8])
        ensures
            bytes@ == raw_of(*self),
            bytes@.len() == (bits_of(*self).len() + 7) / 8,
            forall|i: int|
                0 <= i < bits_of(*self).len() ==> #[trigger] bits_of(*self)[i] == bit_at(bytes@, i),
    {
        self.bits.as_raw_slice()
    }

    /// `Not` for `BitVec`: every bit flipped.
    #[verifier::external_body]
    pub(crate) fn not(self) -> (pieces: Self)
        ensures
            bits_of(pieces) == bits_of(self).map_values(|bit: bool| !bit),
    {
        PieceBits { bits: !self.bits }
    }

    /// `BitAnd` for `BitVec`: the bits set on both sides, where a shorter right side counts as
    /// continued by zeros.
    #[verifier::external_body]
    pub(crate) fn bitand(self, other: Self) -> (pieces: Self)
        ensures
            bits_of(pieces) == Seq::new(
                bits_of(self).len(),
                |i: int| bits_of(self)[i] && i < bits_of(other).len() && bits_of(other)[i],
            ),
    {
        PieceBits { bits: self.bits & other.bits }
    }
}

impl Clone for PieceBits {
    /// `Clone` for `BitVec`: the same bits, with the spare ones zero.
    #[verifier::external_body]
    fn clone(&self) -> (pieces: Self)
        ensures
            bits_of(pieces) == bits_of(*self),
            spare_is_clear(pieces),
    {
        PieceBits { bits: self.bits.clone() }
    }
}

/// The bits of a byte are the digits of its binary numeral, the first bit the most significant, and
/// the bits of a byte string are those of its bytes, one byte after the other.
pub proof fn bits_are_binary_digits(byte: u8, bytes: Seq<u8>, at: int, k: int)
    requires
        0 <= at < bytes.len(),
        0 <= k < 8,
    ensures
        byte == (if bit_of(byte, 0) { 128int } else { 0 }) + (if bit_of(byte, 1) { 64int } else { 0 })
            + (if bit_of(byte, 2) { 32int } else { 0 }) + (if bit_of(byte, 3) { 16int } else { 0 })
            + (if bit_of(byte, 4) { 8int } else { 0 }) + (if bit_of(byte, 5) { 4int } else { 0 })
            + (if bit_of(byte, 6) { 2int } else { 0 }) + (if bit_of(byte, 7) { 1int } else { 0 }),
        bit_at(bytes, 8 * at + k) == bit_of(bytes[at], k),
{
    assert(byte == (if byte & (1u8 << 7u8) != 0 { 128int } else { 0 }) + (if byte & (1u8 << 6u8)
        != 0 { 64int } else { 0 }) + (if byte & (1u8 << 5u8) != 0 { 32int } else { 0 }) + (if byte & (
    1u8 << 4u8) != 0 { 16int } else { 0 }) + (if byte & (1u8 << 3u8) != 0 { 8int } else { 0 }) + (
    if byte & (1u8 << 2u8) != 0 { 4int } else { 0 }) + (if byte & (1u8 << 1u8) != 0 { 2int } else {
        0
    }) + (if byte & (1u8 << 0u8) != 0 { 1int } else { 0 })) by (bit_vector);
    assert((8 * at + k) / 8 == at && (8 * at + k) % 8 == k);
}

} // verus!
