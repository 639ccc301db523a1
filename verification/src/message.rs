//! Bit fields as peers send them.
use crate::bits;
use vstd::prelude::*;

verus! {

/// The positions below `upto` at which a bit of the string is set, in ascending order.
pub open spec fn set_below(bytes: Seq<u8>, upto: int) -> Seq<usize>
    decreases upto,
{
    if upto <= 0 {
        Seq::empty()
    } else {
        let before = set_below(bytes, upto - 1);
        if bits::bit_at(bytes, upto - 1) {
            before.push((upto - 1) as usize)
        } else {
            before
        }
    }
}

/// The text of a byte in binary, from bit `from` on.
pub open spec fn binary_from(byte: u8, from: int) -> Seq<char>
    decreases 8 - from,
{
    if from >= 8 {
        Seq::empty()
    } else {
        seq![
            if bits::bit_of(byte, from) {
                '1'
            } else {
                '0'
            },
        ] + binary_from(byte, from + 1)
    }
}

/// The text of a byte string in binary, bytes set apart by `_`.
pub open spec fn binary_text(bytes: Seq<u8>) -> Seq<char>
    decreases bytes.len(),
{
    if bytes.len() == 0 {
        Seq::empty()
    } else if bytes.len() == 1 {
        binary_from(bytes[0], 0)
    } else {
        binary_text(bytes.drop_last()).push('_') + binary_from(bytes.last(), 0)
    }
}

/// The bytes with one bit written.
pub open spec fn with_bit(byte: u8, k: int, value: bool) -> u8 {
    if value {
        byte | (1u8 << ((7 - k) as u8))
    } else {
        byte & !(1u8 << ((7 - k) as u8))
    }
}

/// Bitwise `or` of two byte strings, over the length of the first.
pub open spec fn merged(mine: Seq<u8>, other: Seq<u8>) -> Seq<u8> {
    Seq::new(
        mine.len(),
        |i: int|
            if i < other.len() {
                mine[i] | other[i]
            } else {
                mine[i]
            },
    )
}

/// The other string has a bit set that is not set here, among those that both have.
pub open spec fn has_more(mine: Seq<u8>, other: Seq<u8>) -> bool {
    exists|i: int|
        0 <= i < 8 * mine.len() && i < 8 * other.len() && !bits::bit_at(mine, i)
            && #[trigger] bits::bit_at(other, i)
}

/// Every bit that the other string has set is set here too, among those that both have.
pub open spec fn covers(mine: Seq<u8>, other: Seq<u8>) -> bool {
    forall|i: int|
        0 <= i < 8 * mine.len() && i < 8 * other.len() && #[trigger] bits::bit_at(other, i)
            ==> bits::bit_at(mine, i)
}

proof fn mask_facts(byte: u8, other: u8, k: u8, j: u8, value: bool)
    requires
        k < 8,
        j < 8,
    ensures
        bits::bit_of(with_bit(byte, k as int, value), j as int) == (if j == k {
            value
        } else {
            bits::bit_of(byte, j as int)
        }),
        bits::bit_of(byte | other, k as int) == (bits::bit_of(byte, k as int) || bits::bit_of(
            other,
            k as int,
        )),
        bits::bit_of(!byte & other, k as int) == (!bits::bit_of(byte, k as int) && bits::bit_of(
            other,
            k as int,
        )),
{
    let a: u8 = (7 - k) as u8;
    let b: u8 = (7 - j) as u8;
    assert((byte | (1u8 << a)) & (1u8 << b) != 0 <==> (a == b || byte & (1u8 << b) != 0))
        by (bit_vector)
        requires
            a < 8,
            b < 8,
    ;
    assert((byte & !(1u8 << a)) & (1u8 << b) != 0 <==> (a != b && byte & (1u8 << b) != 0))
        by (bit_vector)
        requires
            a < 8,
            b < 8,
    ;
    assert((byte | other) & (1u8 << a) != 0 <==> (byte & (1u8 << a) != 0 || other & (1u8 << a)
        != 0)) by (bit_vector);
    assert((!byte & other) & (1u8 << a) != 0 <==> (byte & (1u8 << a) == 0 && other & (1u8 << a)
        != 0)) by (bit_vector)
        requires
            a < 8,
    ;
}

proof fn zero_has_no_ones(byte: u8)
    ensures
        byte != 0 <==> exists|k: int| 0 <= k < 8 && bits::bit_of(byte, k),
{
    if byte != 0 {
        assert(byte & (1u8 << 7u8) != 0 || byte & (1u8 << 6u8) != 0 || byte & (1u8 << 5u8) != 0
            || byte & (1u8 << 4u8) != 0 || byte & (1u8 << 3u8) != 0 || byte & (1u8 << 2u8) != 0
            || byte & (1u8 << 1u8) != 0 || byte & (1u8 << 0u8) != 0) by (bit_vector)
            requires
                byte != 0,
        ;
        assert(bits::bit_of(byte, 0) || bits::bit_of(byte, 1) || bits::bit_of(byte, 2)
            || bits::bit_of(byte, 3) || bits::bit_of(byte, 4) || bits::bit_of(byte, 5)
            || bits::bit_of(byte, 6) || bits::bit_of(byte, 7));
    } else {
        assert forall|k: int| 0 <= k < 8 implies !bits::bit_of(byte, k) by {
            let a: u8 = (7 - k) as u8;
            assert(0u8 & (1u8 << a) == 0) by (bit_vector);
        }
    }
}

/// Whether bit `k` of a byte, counted from the high bit, is set.
fn byte_bit(byte: u8, k: usize) -> (set: bool)
    requires
        k < 8,
    ensures
        set == bits::bit_of(byte, k as int),
{
    let mask: u8 = 1u8 << ((7 - k) as u8);
    byte & mask != 0
}

/// The pieces that a peer has, as a string of bits.
#[derive(Clone, Debug, Eq, PartialEq)]
pub struct BitField {
    /// The bits, from the high bit of the first byte.
    pub bits: Vec<u8>,
    /// The number of bits that mean something.
    pub settable: u64,
}

impl View for BitField {
    type V = Seq<u8>;

    /// The bytes of the field.
    open spec fn view(&self) -> Seq<u8> {
        self.bits@
    }
}

/// The bytes fall short of the number of bits that mean something.
pub open spec fn too_few_bytes(bytes: Seq<u8>, settable: u64) -> bool {
    settable > 8 * bytes.len()
}

/// The bits that mean something fall short of the number of bytes.
pub open spec fn too_few_settable(bytes: Seq<u8>, settable: u64) -> bool {
    settable < bytes.len() / 8
}

/// A spare bit, after those that mean something, is set.
pub open spec fn too_many_ones(bytes: Seq<u8>, settable: u64) -> bool {
    exists|i: int| settable <= i < 8 * bytes.len() && #[trigger] bits::bit_at(bytes, i)
}

/// The bytes are those of a field of `settable` bits. A field without bits is not accepted.
pub open spec fn acceptable(bytes: Seq<u8>, settable: u64) -> bool {
    &&& !too_few_bytes(bytes, settable)
    &&& !too_few_settable(bytes, settable)
    &&& settable != 0
    &&& !too_many_ones(bytes, settable)
}

/// A position that a bit field answers for.
pub open spec fn addressable(field: BitField, index: usize) -> bool {
    index < field.settable && index / 8 < field@.len()
}

/// The bytes after a bit has been written.
pub open spec fn written(bytes: Seq<u8>, index: int, value: bool) -> Seq<u8> {
    bytes.update(index / 8, with_bit(bytes[index / 8], index % 8, value))
}

impl BitField {
    /// There is a byte for every bit that means something, and the spare bits are zero.
    pub open spec fn wf(self) -> bool {
        &&& self.settable <= 8 * self@.len()
        &&& bits::tail_is_clear(self@, self.settable as int)
    }

    /// The bit at a position that the field answers for.
    pub open spec fn answer(self, index: usize) -> Option<bool> {
        if addressable(self, index) {
            Some(bits::bit_at(self@, index as int))
        } else {
            None
        }
    }
}

impl BitField {
    /// A bit field of the given bytes, of which the first `settable` bits mean something.
    pub fn new(bytes: Vec<u8>, settable: u64) -> (field: Result<Self, &'static str>)
        requires
            8 * bytes@.len() <= usize::MAX,
        ensures
            match field {
                Ok(field) => {
                    &&& acceptable(bytes@, settable)
                    &&& field@ == bytes@
                    &&& field.settable == settable
                    &&& field.wf()
                },
                Err(message) => if too_few_bytes(bytes@, settable) {
                    message@ == "not enough bytes supplied in bitfield"@
                } else if too_few_settable(bytes@, settable) {
                    message@ == "not enough settable bytes"@
                } else {
                    &&& settable == 0 || too_many_ones(bytes@, settable)
                    &&& message@ == "too many ones set in bitfield"@
                },
            },
    {
        let count: u64 = bytes.len() as u64;
        if settable > 8 * count {
            return Err("not enough bytes supplied in bitfield");
        } else if settable < count / 8 {
            return Err("not enough settable bytes");
        }
        if settable == 0 {
            return Err("too many ones set in bitfield");
        }
        let mut at: usize = 0;
        while at < 8 * bytes.len()
            invariant
                at <= 8 * bytes@.len() <= usize::MAX,
                !too_few_bytes(bytes@, settable),
                !too_few_settable(bytes@, settable),
                forall|i: int| settable <= i < at ==> !#[trigger] bits::bit_at(bytes@, i),
            decreases 8 * bytes@.len() - at,
        {
            if at as u64 >= settable && byte_bit(bytes[at / 8], at % 8) {
                assert(bits::bit_at(bytes@, at as int));
                return Err("too many ones set in bitfield");
            }
            at = at + 1;
        }
        Ok(BitField { bits: bytes, settable })
    }

    /// Sets every bit that `other` has set.
    pub fn update(&mut self, other: &Self) -> (done: Result<(), &'static str>)
        ensures
            final(self).settable == old(self).settable,
            match done {
                Ok(()) => old(self).settable == other.settable && final(self)@ == merged(
                    old(self)@,
                    other@,
                ),
                Err(message) => old(self).settable != other.settable && final(self)@ == old(self)@
                    && message@ == "Number of settable bits differ"@,
            },
            old(self).wf() && other.wf() ==> final(self).wf(),
    {
        if self.settable != other.settable {
            return Err("Number of settable bits differ");
        }
        let ghost before = self@;
        let mut i: usize = 0;
        while i < self.bits.len() && i < other.bits.len()
            invariant
                i <= self@.len(),
                i <= other@.len(),
                self@.len() == before.len(),
                before == old(self)@,
                self.settable == old(self).settable,
                self.settable == other.settable,
                forall|k: int| 0 <= k < i ==> self@[k] == before[k] | other@[k],
                forall|k: int| i <= k < before.len() ==> self@[k] == before[k],
            decreases self@.len() - i,
        {
            let byte: u8 = self.bits[i] | other.bits[i];
            self.bits[i] = byte;
            i = i + 1;
        }
        assert(self@ =~= merged(before, other@));
        proof {
            if old(self).wf() && other.wf() {
                assert forall|i: int| self.settable <= i < 8 * self@.len() implies !#[trigger] bits::bit_at(
                    self@,
                    i,
                ) by {
                    merging_joins_the_bits(before, other@, i);
                    assert(!bits::bit_at(before, i));
                    if i < 8 * other@.len() {
                        assert(!bits::bit_at(other@, i));
                    }
                }
            }
        }
        Ok(())
    }

    /// A bit field of which every bit means something.
    pub fn from_slice(bits: &[u8]) -> (field: Self)
        requires
            8 * bits@.len() <= u64::MAX,
        ensures
            field@ == bits@,
            field.settable == 8 * bits@.len(),
            field.wf(),
    {
        let bytes = vstd::slice::slice_to_vec(bits);
        BitField { bits: bytes, settable: bits.len() as u64 * 8 }
    }

    /// A bit field with no bit set and room for `settable` of them.
    pub fn with_settable(settable: u64) -> (field: Self)
        requires
            settable <= usize::MAX,
        ensures
            field.settable == settable,
            field@ == Seq::new(((settable + 7) / 8) as nat, |i: int| 0u8),
            field.wf(),
    {
        let whole: u64 = settable / 8;
        let count: u64 = if settable % 8 == 0 {
            whole
        } else {
            whole + 1
        };
        let bits = vec![0u8; count as usize];
        assert(bits@ =~= Seq::new(((settable + 7) / 8) as nat, |i: int| 0u8));
        proof {
            zero_has_no_ones(0);
            assert forall|i: int| 0 <= i < 8 * bits@.len() implies !#[trigger] bits::bit_at(
                bits@,
                i,
            ) by {
                assert(bits@[i / 8] == 0);
            }
        }
        BitField { settable, bits }
    }

    /// Whether a bit is set.
    pub fn is_set(&self, index: usize) -> (set: Result<bool, &'static str>)
        ensures
            match set {
                Ok(set) => self.answer(index) == Some(set),
                Err(message) => self.answer(index) is None && message@ == "Index out of bounds"@,
            },
    {
        if index as u64 >= self.settable {
            return Err("Index out of bounds");
        }
        let byte_index: usize = index / 8;
        let bit_index: usize = index % 8;
        if byte_index >= self.bits.len() {
            return Err("Index out of bounds");
        }
        Ok(byte_bit(self.bits[byte_index], bit_index))
    }

    /// Writes a bit and returns the one that stood there.
    pub fn set(&mut self, index: usize, value: bool) -> (previous: Result<bool, &'static str>)
        ensures
            final(self).settable == old(self).settable,
            match previous {
                Ok(previous) => {
                    &&& old(self).answer(index) == Some(previous)
                    &&& final(self)@ == written(old(self)@, index as int, value)
                },
                Err(message) => old(self).answer(index) is None && final(self)@ == old(self)@
                    && message@ == "Index out of bounds"@,
            },
            old(self).wf() ==> final(self).wf(),
    {
        if index as u64 >= self.settable {
            return Err("Index out of bounds");
        }
        let byte_index: usize = index / 8;
        let bit_index: usize = index % 8;
        if byte_index >= self.bits.len() {
            return Err("Index out of bounds");
        }
        let mask: u8 = 1u8 << ((7 - bit_index) as u8);
        let byte: u8 = self.bits[byte_index];
        let prev = byte_bit(byte, bit_index);
        if value {
            self.bits[byte_index] = byte | mask;
        } else {
            self.bits[byte_index] = byte & !mask;
        }
        proof {
            assert(self@ =~= written(old(self)@, index as int, value));
            if old(self).wf() {
                assert forall|i: int| self.settable <= i < 8 * self@.len() implies !#[trigger] bits::bit_at(
                    self@,
                    i,
                ) by {
                    written_bits_are_read_back(old(self)@, index as int, value, i);
                    assert(!bits::bit_at(old(self)@, i));
                }
            }
        }
        Ok(prev)
    }

    /// Whether `other` has a bit set that is not set here.
    pub fn has_other(&self, other: &BitField) -> (found: Result<bool, &'static str>)
        ensures
            match found {
                Ok(found) => self.settable == other.settable && found == has_more(self@, other@),
                Err(message) => self.settable != other.settable && message@
                    == "BitFields do not have the same number of settable bits"@,
            },
    {
        if self.settable != other.settable {
            return Err("BitFields do not have the same number of settable bits");
        }
        let mut i: usize = 0;
        while i < self.bits.len() && i < other.bits.len()
            invariant
                self.settable == other.settable,
                i <= self@.len(),
                i <= other@.len(),
                forall|k: int|
                    0 <= k < 8 * i && !bits::bit_at(self@, k) ==> !#[trigger] bits::bit_at(other@, k),
            decreases self@.len() - i,
        {
            let mine: u8 = self.bits[i];
            let theirs: u8 = other.bits[i];
            proof {
                zero_has_no_ones(!mine & theirs);
            }
            if (!mine) & theirs != 0 {
                proof {
                    let k = choose|k: int| 0 <= k < 8 && bits::bit_of(!mine & theirs, k);
                    mask_facts(mine, theirs, k as u8, 0, false);
                    let at = 8 * i + k;
                    assert(at / 8 == i && at % 8 == k);
                    assert(!bits::bit_at(self@, at) && bits::bit_at(other@, at));
                }
                return Ok(true);
            }
            proof {
                assert forall|k: int| 0 <= k < 8 * (i + 1) && !bits::bit_at(
                    self@,
                    k,
                ) implies !#[trigger] bits::bit_at(other@, k) by {
                    if k >= 8 * i {
                        assert(k / 8 == i);
                        mask_facts(mine, theirs, (k % 8) as u8, 0, false);
                    }
                }
            }
            i = i + 1;
        }
        Ok(false)
    }

    /// The positions of all the bits that are set.
    pub fn set_bits(&self) -> (indices: Vec<usize>)
        requires
            8 * self@.len() <= usize::MAX,
        ensures
            indices@ == set_below(self@, 8 * self@.len() as int),
    {
        let mut indices: Vec<usize> = Vec::new();
        let mut i: usize = 0;
        while i < self.bits.len()
            invariant
                i <= self@.len(),
                8 * self@.len() <= usize::MAX,
                indices@ == set_below(self@, 8 * i),
            decreases self@.len() - i,
        {
            let byte: u8 = self.bits[i];
            let mut k: usize = 0;
            while k < 8
                invariant
                    k <= 8,
                    i < self@.len(),
                    8 * self@.len() <= usize::MAX,
                    byte == self@[i as int],
                    indices@ == set_below(self@, 8 * i + k),
                decreases 8 - k,
            {
                assert((8 * i + k) / 8 == i && (8 * i + k) % 8 == k);
                if byte_bit(byte, k) {
                    indices.push(8 * i + k);
                }
                k = k + 1;
            }
            i = i + 1;
        }
        indices
    }

    /// Whether every bit that `other` has set is set here too.
    pub fn contains(&self, other: &BitField) -> (all: Result<bool, &'static str>)
        ensures
            match all {
                Ok(all) => self.settable == other.settable && all == covers(self@, other@),
                Err(message) => self.settable != other.settable && message@
                    == "BitFields do not have the same number of bytes"@,
            },
    {
        if self.settable != other.settable {
            return Err("BitFields do not have the same number of bytes");
        }
        let mut i: usize = 0;
        while i < self.bits.len() && i < other.bits.len()
            invariant
                self.settable == other.settable,
                i <= self@.len(),
                i <= other@.len(),
                forall|k: int|
                    0 <= k < 8 * i && #[trigger] bits::bit_at(other@, k) ==> bits::bit_at(self@, k),
            decreases self@.len() - i,
        {
            let mine: u8 = self.bits[i];
            let theirs: u8 = other.bits[i];
            proof {
                assert(mine & theirs != theirs <==> !mine & theirs != 0) by (bit_vector);
                zero_has_no_ones(!mine & theirs);
            }
            if mine & theirs != theirs {
                proof {
                    let k = choose|k: int| 0 <= k < 8 && bits::bit_of(!mine & theirs, k);
                    mask_facts(mine, theirs, k as u8, 0, false);
                    let at = 8 * i + k;
                    assert(at / 8 == i && at % 8 == k);
                    assert(!bits::bit_at(self@, at) && bits::bit_at(other@, at));
                }
                return Ok(false);
            }
            proof {
                assert forall|k: int| 0 <= k < 8 * (i + 1) && #[trigger] bits::bit_at(
                    other@,
                    k,
                ) implies bits::bit_at(self@, k) by {
                    if k >= 8 * i {
                        assert(k / 8 == i);
                        mask_facts(mine, theirs, (k % 8) as u8, 0, false);
                    }
                }
            }
            i = i + 1;
        }
        Ok(true)
    }

    /// The text of the field for diagnostics: its bytes in binary.
    pub fn debug_string(&self) -> (text: String)
        ensures
            text@ == "BitField { bits: "@ + binary_text(self@) + " }"@,
    {
        let mut text = String::new();
        text.append("BitField { bits: ");
        let ghost start = text@;
        let mut i: usize = 0;
        while i < self.bits.len()
            invariant
                i <= self@.len(),
                text@ == start + binary_text(self@.take(i as int)),
            decreases self@.len() - i,
        {
            if i > 0 {
                text.push('_');
            }
            let byte: u8 = self.bits[i];
            let ghost before = text@;
            let mut k: usize = 0;
            while k < 8
                invariant
                    k <= 8,
                    text@ + binary_from(byte, k as int) == before + binary_from(byte, 0),
                decreases 8 - k,
            {
                let ghost shown = text@;
                text.push(
                    if byte_bit(byte, k) {
                        '1'
                    } else {
                        '0'
                    },
                );
                assert(text@ + binary_from(byte, k + 1) =~= shown + binary_from(byte, k as int));
                k = k + 1;
            }
            assert(binary_from(byte, 8) =~= Seq::empty());
            assert(self@.take(i + 1).drop_last() =~= self@.take(i as int));
            assert(text@ =~= start + binary_text(self@.take(i + 1))) by {
                if i == 0 {
                    assert(self@.take(0) =~= Seq::empty());
                }
            }
            i = i + 1;
        }
        assert(self@.take(i as int) =~= self@);
        text.append(" }");
        text
    }
}

/// Writing a bit changes that bit and no other.
pub proof fn written_bits_are_read_back(bytes: Seq<u8>, index: int, value: bool, other: int)
    requires
        0 <= index < 8 * bytes.len(),
        0 <= other < 8 * bytes.len(),
    ensures
        bits::bit_at(written(bytes, index, value), other) == (if other == index {
            value
        } else {
            bits::bit_at(bytes, other)
        }),
{
    mask_facts(bytes[index / 8], 0, (index % 8) as u8, (other % 8) as u8, value);
}

/// Merging sets the bits that either side has set, and so every bit of the other side that there
/// is room for.
pub proof fn merging_joins_the_bits(mine: Seq<u8>, other: Seq<u8>, index: int)
    requires
        0 <= index < 8 * mine.len(),
    ensures
        bits::bit_at(merged(mine, other), index) == (bits::bit_at(mine, index) || (index < 8
            * other.len() && bits::bit_at(other, index))),
{
    if index < 8 * other.len() {
        mask_facts(mine[index / 8], other[index / 8], (index % 8) as u8, 0, false);
    }
}

/// Merging again with the same field changes nothing.
pub proof fn merging_twice_is_merging_once(mine: Seq<u8>, other: Seq<u8>)
    ensures
        merged(merged(mine, other), other) == merged(mine, other),
{
    assert forall|i: int| 0 <= i < mine.len() implies merged(merged(mine, other), other)[i]
        == merged(mine, other)[i] by {
        if i < other.len() {
            let a = mine[i];
            let b = other[i];
            assert((a | b) | b == a | b) by (bit_vector);
        }
    }
    assert(merged(merged(mine, other), other) =~= merged(mine, other));
}

/// A peer has something that we lack exactly when our field does not contain the peer's.
pub proof fn lacking_is_not_containing(mine: Seq<u8>, other: Seq<u8>)
    ensures
        has_more(mine, other) <==> !covers(mine, other),
{
}

/// The listed positions are those of the set bits, each once and in ascending order.
pub proof fn set_positions_are_those_of_ones(bytes: Seq<u8>, upto: int)
    requires
        0 <= upto <= 8 * bytes.len() <= usize::MAX,
    ensures
        forall|p: usize|
            #[trigger] set_below(bytes, upto).contains(p) <==> (p < upto && bits::bit_at(
                bytes,
                p as int,
            )),
        forall|i: int, j: int|
            0 <= i < j < set_below(bytes, upto).len() ==> set_below(bytes, upto)[i] < set_below(
                bytes,
                upto,
            )[j],
    decreases upto,
{
    if upto > 0 {
        set_positions_are_those_of_ones(bytes, upto - 1);
        let before = set_below(bytes, upto - 1);
        let all = set_below(bytes, upto);
        assert forall|i: int| 0 <= i < before.len() implies before[i] < upto - 1 by {
            assert(before.contains(before[i]));
        }
        assert forall|p: usize| #[trigger] all.contains(p) <==> (p < upto && bits::bit_at(
            bytes,
            p as int,
        )) by {
            assert(before.contains(p) <==> (p < upto - 1 && bits::bit_at(bytes, p as int)));
            if before.contains(p) {
                assert(all[before.index_of(p)] == p);
            }
            if bits::bit_at(bytes, upto - 1) {
                assert(all[all.len() - 1] == upto - 1);
            }
        }
    }
}

proof fn few_ones_below(bytes: Seq<u8>, upto: int, limit: int)
    requires
        0 <= limit,
        0 <= upto,
        forall|i: int| limit <= i < upto ==> !bits::bit_at(bytes, i),
    ensures
        set_below(bytes, upto).len() <= limit,
        set_below(bytes, upto).len() <= upto,
    decreases upto,
{
    if upto > 0 {
        few_ones_below(bytes, upto - 1, limit);
    }
}

/// A field with enough bytes, not too many, and all its spare bits zero is accepted.
pub proof fn fields_with_zero_spare_bits_are_accepted(bytes: Seq<u8>, settable: u64)
    requires
        0 < settable <= 8 * bytes.len(),
        bytes.len() <= (settable + 7) / 8,
        bits::tail_is_clear(bytes, settable as int),
    ensures
        acceptable(bytes, settable),
{
}

/// A field has no more ones than bits that mean something.
pub proof fn ones_have_room(field: BitField)
    requires
        field.wf(),
    ensures
        set_below(field@, 8 * field@.len() as int).len() <= field.settable,
{
    few_ones_below(field@, 8 * field@.len() as int, field.settable as int);
}

/// A field answers for the bits that mean something and for no others, and the ones among them are
/// those that are listed.
pub proof fn answers_are_those_listed(field: BitField, index: usize)
    requires
        field.wf(),
        8 * field@.len() <= usize::MAX,
    ensures
        field.answer(index) == (if index < field.settable {
            Some(set_below(field@, 8 * field@.len() as int).contains(index))
        } else {
            None
        }),
{
    set_positions_are_those_of_ones(field@, 8 * field@.len() as int);
}

/// After a bit has been written it is the one that is read, and what is read elsewhere is what stood
/// there before.
pub proof fn written_answers_are_read_back(
    before: BitField,
    after: BitField,
    index: usize,
    value: bool,
    other: usize,
)
    requires
        addressable(before, index),
        after@ == written(before@, index as int, value),
        after.settable == before.settable,
    ensures
        after@.len() == before@.len(),
        after.answer(index) == Some(value),
        other != index ==> after.answer(other) == before.answer(other),
{
    written_bits_are_read_back(before@, index as int, value, index as int);
    if addressable(before, other) {
        written_bits_are_read_back(before@, index as int, value, other as int);
    }
}

/// The bytes that are accepted as a field of `settable` bits: there are enough of them, there are
/// fewer than eight for every bit and one more, and every bit past the last one is zero.
pub proof fn accepted_fields_have_room_and_no_stray_bits(bytes: Seq<u8>, settable: u64)
    ensures
        acceptable(bytes, settable) <==> 0 < settable <= 8 * bytes.len() && bytes.len() < 8 * (
        settable + 1) && (forall|i: int|
            settable <= i < 8 * bytes.len() ==> !#[trigger] bits::bit_at(bytes, i)),
        too_few_bytes(bytes, settable) <==> 8 * bytes.len() < settable,
        too_few_settable(bytes, settable) <==> 8 * (settable + 1) <= bytes.len(),
        too_many_ones(bytes, settable) <==> (exists|i: int|
            settable <= i < 8 * bytes.len() && #[trigger] bits::bit_at(bytes, i)),
{
}

/// Merging keeps the number of bytes, and two fields of one size give the same bytes either way.
pub proof fn merging_keeps_the_size(mine: Seq<u8>, other: Seq<u8>)
    ensures
        merged(mine, other).len() == mine.len(),
        other.len() == mine.len() ==> merged(mine, other) == merged(other, mine),
{
    if other.len() == mine.len() {
        assert forall|i: int| 0 <= i < mine.len() implies merged(mine, other)[i] == merged(
            other,
            mine,
        )[i] by {
            let a = mine[i];
            let b = other[i];
            assert(a | b == b | a) by (bit_vector);
        }
        assert(merged(mine, other) =~= merged(other, mine));
    }
}

proof fn binary_digits(byte: u8, from: int)
    requires
        0 <= from <= 8,
    ensures
        binary_from(byte, from).len() == 8 - from,
        forall|k: int|
            0 <= k < 8 - from ==> #[trigger] binary_from(byte, from)[k] == (if bits::bit_of(
                byte,
                from + k,
            ) {
                '1'
            } else {
                '0'
            }),
    decreases 8 - from,
{
    if from < 8 {
        binary_digits(byte, from + 1);
        assert forall|k: int| 0 <= k < 8 - from implies #[trigger] binary_from(byte, from)[k] == (
        if bits::bit_of(byte, from + k) {
            '1'
        } else {
            '0'
        }) by {
            if k > 0 {
                assert(binary_from(byte, from)[k] == binary_from(byte, from + 1)[k - 1]);
            }
        }
    }
}

/// The text of a field has a `1` or a `0` for every bit, in order, and a `_` between the bytes.
pub proof fn binary_texts_show_every_bit(bytes: Seq<u8>, at: int, k: int)
    requires
        0 <= at < bytes.len(),
        0 <= k <= 8,
    ensures
        binary_text(bytes).len() == 9 * bytes.len() - 1,
        k < 8 ==> binary_text(bytes)[9 * at + k] == (if bits::bit_at(bytes, 8 * at + k) {
            '1'
        } else {
            '0'
        }),
        k == 8 && at < bytes.len() - 1 ==> binary_text(bytes)[9 * at + k] == '_',
    decreases bytes.len(),
{
    binary_digits(bytes.last(), 0);
    assert((8 * at + k) / 8 == at && (8 * at + k) % 8 == k || k == 8);
    if bytes.len() > 1 {
        let front = bytes.drop_last();
        if at < front.len() {
            binary_texts_show_every_bit(front, at, k);
        } else {
            binary_texts_show_every_bit(front, 0, 0);
        }
    }
}

/// A field that is merged with another contains it and what it held before, and the other then has
/// nothing more. A bit that only the other has set is something more, and there is nothing more
/// without such a bit.
pub proof fn merging_makes_fields_contain_each_other(mine: Seq<u8>, other: Seq<u8>, index: int)
    requires
        0 <= index < 8 * mine.len(),
        index < 8 * other.len(),
    ensures
        covers(merged(mine, other), other),
        covers(merged(mine, other), mine),
        !has_more(merged(mine, other), other),
        !bits::bit_at(mine, index) && bits::bit_at(other, index) ==> has_more(mine, other)
            && !covers(mine, other),
        covers(mine, other) && bits::bit_at(other, index) ==> bits::bit_at(mine, index),
        has_more(mine, other) ==> exists|i: int|
            0 <= i < 8 * mine.len() && i < 8 * other.len() && #[trigger] bits::bit_at(other, i)
                && !bits::bit_at(mine, i),
{
    let all = merged(mine, other);
    assert forall|i: int| 0 <= i < 8 * all.len() && i < 8 * other.len() && #[trigger] bits::bit_at(
        other,
        i,
    ) implies bits::bit_at(all, i) by {
        merging_joins_the_bits(mine, other, i);
    }
    assert forall|i: int| 0 <= i < 8 * all.len() && i < 8 * mine.len() && #[trigger] bits::bit_at(
        mine,
        i,
    ) implies bits::bit_at(all, i) by {
        merging_joins_the_bits(mine, other, i);
    }
}

/// A field answers with the bit at a position that means something and for which it has a byte, and
/// for no other position.
pub proof fn answers_are_bits(field: BitField, index: usize)
    ensures
        field.answer(index) is Some <==> index < field.settable && index < 8 * field@.len(),
        field.answer(index) matches Some(answer) ==> answer == bits::bit_of(
            field@[index as int / 8],
            index as int % 8,
        ),
{
}

} // verus!
