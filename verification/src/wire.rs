//! Big-endian (network order) integers.
use vstd::prelude::*;

verus! {

/// The two bytes of `x`, most significant first.
pub open spec fn be16(x: u16) -> Seq<u8> {
    seq![(x / 0x100) as u8, (x % 0x100) as u8]
}

/// The four bytes of `x`, most significant first.
pub open spec fn be32(x: u32) -> Seq<u8> {
    seq![
        (x / 0x100_0000) as u8,
        (x / 0x1_0000 % 0x100) as u8,
        (x / 0x100 % 0x100) as u8,
        (x % 0x100) as u8,
    ]
}

/// The eight bytes of `x`, most significant first.
pub open spec fn be64(x: u64) -> Seq<u8> {
    be32((x / 0x1_0000_0000) as u32) + be32((x % 0x1_0000_0000) as u32)
}

/// The integer whose two bytes, most significant first, are `s`.
pub open spec fn from_be16(s: Seq<u8>) -> u16 {
    (s[0] * 0x100 + s[1]) as u16
}

/// The integer whose four bytes, most significant first, are `s`.
pub open spec fn from_be32(s: Seq<u8>) -> u32 {
    (s[0] * 0x100_0000 + s[1] * 0x1_0000 + s[2] * 0x100 + s[3]) as u32
}

/// The integer whose eight bytes, most significant first, are `s`.
pub open spec fn from_be64(s: Seq<u8>) -> u64 {
    (from_be32(s.subrange(0, 4)) * 0x1_0000_0000 + from_be32(s.subrange(4, 8))) as u64
}

/// The number that a byte string spells in base 256, most significant byte first.
pub open spec fn value(s: Seq<u8>) -> int
    decreases s.len(),
{
    if s.len() == 0 {
        0
    } else {
        value(s.drop_last()) * 0x100 + s.last()
    }
}

/// Reading back two written bytes gives the integer, and writing a read integer gives the bytes.
pub proof fn be16_round_trip(x: u16, s: Seq<u8>)
    requires
        s.len() == 2,
    ensures
        from_be16(be16(x)) == x,
        be16(from_be16(s)) == s,
{
    assert(be16(from_be16(s)) =~= s);
}

/// The bytes of a sum of bytes, each at its place.
proof fn bytes_of_sum(a: u8, b: u8, c: u8, d: u8, n: u32)
    requires
        n == a * 0x100_0000 + b * 0x1_0000 + c * 0x100 + d,
    ensures
        n / 0x100_0000 == a,
        n / 0x1_0000 % 0x100 == b,
        n / 0x100 % 0x100 == c,
        n % 0x100 == d,
{
    assert(n / 0x100_0000 == a && n / 0x1_0000 % 0x100 == b && n / 0x100 % 0x100 == c && n % 0x100
        == d) by (bit_vector)
        requires
            n == a * 0x100_0000 + b * 0x1_0000 + c * 0x100 + d,
    ;
}

/// An integer is the sum of its bytes, each at its place.
proof fn sum_of_bytes(x: u32)
    ensures
        x == x / 0x100_0000 * 0x100_0000 + x / 0x1_0000 % 0x100 * 0x1_0000 + x / 0x100 % 0x100
            * 0x100 + x % 0x100,
        x / 0x100_0000 < 0x100,
{
    assert(x == x / 0x100_0000 * 0x100_0000 + x / 0x1_0000 % 0x100 * 0x1_0000 + x / 0x100 % 0x100
        * 0x100 + x % 0x100) by (bit_vector);
    assert(x / 0x100_0000 < 0x100) by (bit_vector);
}

/// Reading back four written bytes gives the integer, and writing a read integer gives the bytes.
pub proof fn be32_round_trip(x: u32, s: Seq<u8>)
    requires
        s.len() == 4,
    ensures
        from_be32(be32(x)) == x,
        be32(from_be32(s)) == s,
{
    sum_of_bytes(x);
    bytes_of_sum(s[0], s[1], s[2], s[3], from_be32(s));
    assert(be32(from_be32(s)) =~= s);
}

proof fn halves_of_64(hi: u32, lo: u32)
    ensures
        ((hi * 0x1_0000_0000 + lo) as u64 / 0x1_0000_0000) as u32 == hi,
        ((hi * 0x1_0000_0000 + lo) as u64 % 0x1_0000_0000) as u32 == lo,
{
}

/// Reading back eight written bytes gives the integer, and writing a read integer gives the bytes.
pub proof fn be64_round_trip(x: u64, s: Seq<u8>)
    requires
        s.len() == 8,
    ensures
        from_be64(be64(x)) == x,
        be64(from_be64(s)) == s,
{
    let hi = (x / 0x1_0000_0000) as u32;
    let lo = (x % 0x1_0000_0000) as u32;
    let first = s.subrange(0, 4);
    let second = s.subrange(4, 8);
    be32_round_trip(hi, first);
    be32_round_trip(lo, second);
    assert(be64(x).subrange(0, 4) =~= be32(hi));
    assert(be64(x).subrange(4, 8) =~= be32(lo));
    halves_of_64(from_be32(first), from_be32(second));
    assert(first + second =~= s);
    assert(be64(from_be64(s)) == first + second);
}

/// Splits a 16-bit integer into bytes.
pub fn u16_to_be(x: u16) -> (bytes: [u8; 2])
    ensures
        bytes@ == be16(x),
{
    [(x / 0x100) as u8, (x % 0x100) as u8]
}

/// Splits a 32-bit integer into bytes.
pub fn u32_to_be(x: u32) -> (bytes: [u8; 4])
    ensures
        bytes@ == be32(x),
{
    [
        (x / 0x100_0000) as u8,
        (x / 0x1_0000 % 0x100) as u8,
        (x / 0x100 % 0x100) as u8,
        (x % 0x100) as u8,
    ]
}

/// Splits a 64-bit integer into bytes.
pub fn u64_to_be(x: u64) -> (bytes: [u8; 8])
    ensures
        bytes@ == be64(x),
{
    let hi = u32_to_be((x / 0x1_0000_0000) as u32);
    let lo = u32_to_be((x % 0x1_0000_0000) as u32);
    [hi[0], hi[1], hi[2], hi[3], lo[0], lo[1], lo[2], lo[3]]
}

/// Reads the two bytes of `bytes` that start at `at`.
pub fn u16_at(bytes: &[u8], at: usize) -> (x: u16)
    requires
        at + 2 <= bytes@.len(),
    ensures
        x == from_be16(bytes@.subrange(at as int, at + 2)),
{
    bytes[at] as u16 * 0x100 + bytes[at + 1] as u16
}

/// Reads the four bytes of `bytes` that start at `at`.
pub fn u32_at(bytes: &[u8], at: usize) -> (x: u32)
    requires
        at + 4 <= bytes@.len(),
    ensures
        x == from_be32(bytes@.subrange(at as int, at + 4)),
{
    bytes[at] as u32 * 0x100_0000 + bytes[at + 1] as u32 * 0x1_0000 + bytes[at + 2] as u32 * 0x100
        + bytes[at + 3] as u32
}

/// Reads the eight bytes of `bytes` that start at `at`.
pub fn u64_at(bytes: &[u8], at: usize) -> (x: u64)
    requires
        at + 8 <= bytes@.len(),
    ensures
        x == from_be64(bytes@.subrange(at as int, at + 8)),
{
    let hi: u32 = u32_at(bytes, at);
    assert(at + 8 <= bytes.len());
    let lo: u32 = u32_at(bytes, at + 4);
    proof {
        let s = bytes@.subrange(at as int, at + 8);
        assert(s.subrange(0, 4) =~= bytes@.subrange(at as int, at + 4));
        assert(s.subrange(4, 8) =~= bytes@.subrange(at + 4, at + 8));
    }
    hi as u64 * 0x1_0000_0000 + lo as u64
}

/// Appends bytes to a vector.
pub fn append(out: &mut Vec<u8>, bytes: &[u8])
    ensures
        final(out)@ == old(out)@ + bytes@,
{
    let ghost before = out@;
    let mut i: usize = 0;
    while i < bytes.len()
        invariant
            i <= bytes@.len(),
            out@ =~= before + bytes@.take(i as int),
        decreases bytes@.len() - i,
    {
        out.push(bytes[i]);
        i = i + 1;
    }
    assert(bytes@.take(i as int) =~= bytes@);
}

/// The eight bytes of `bytes` that start at `at`.
pub fn eight_at(bytes: &[u8], at: usize) -> (found: [u8; 8])
    requires
        at + 8 <= bytes@.len(),
    ensures
        found@ == bytes@.subrange(at as int, at + 8),
{
    let mut found = [0u8; 8];
    let mut i: usize = 0;
    while i < 8
        invariant
            i <= 8,
            at + 8 <= bytes@.len(),
            bytes.len() == bytes@.len(),
            found@.len() == 8,
            forall|k: int| 0 <= k < i ==> found@[k] == bytes@[at + k],
        decreases 8 - i,
    {
        found[i] = bytes[at + i];
        i = i + 1;
    }
    assert(found@ =~= bytes@.subrange(at as int, at + 8));
    found
}

/// The twenty bytes of `bytes` that start at `at`.
pub fn twenty_at(bytes: &[u8], at: usize) -> (found: [u8; 20])
    requires
        at + 20 <= bytes@.len(),
    ensures
        found@ == bytes@.subrange(at as int, at + 20),
{
    let mut found = [0u8; 20];
    let mut i: usize = 0;
    while i < 20
        invariant
            i <= 20,
            at + 20 <= bytes@.len(),
            bytes.len() == bytes@.len(),
            found@.len() == 20,
            forall|k: int| 0 <= k < i ==> found@[k] == bytes@[at + k],
        decreases 20 - i,
    {
        found[i] = bytes[at + i];
        i = i + 1;
    }
    assert(found@ =~= bytes@.subrange(at as int, at + 20));
    found
}

/// Whether two byte strings are the same.
pub fn same_bytes(a: &[u8], b: &[u8]) -> (same: bool)
    ensures
        same == (a@ == b@),
{
    if a.len() != b.len() {
        return false;
    }
    let mut i: usize = 0;
    while i < a.len()
        invariant
            i <= a@.len(),
            a@.len() == b@.len(),
            forall|k: int| 0 <= k < i ==> a@[k] == b@[k],
        decreases a@.len() - i,
    {
        if a[i] != b[i] {
            return false;
        }
        i = i + 1;
    }
    assert(a@ =~= b@);
    true
}

/// What two and what four bytes spell.
pub proof fn short_values(s: Seq<u8>)
    ensures
        s.len() == 2 ==> value(s) == s[0] * 0x100 + s[1],
        s.len() == 4 ==> value(s) == s[0] * 0x100_0000 + s[1] * 0x1_0000 + s[2] * 0x100 + s[3],
{
    reveal_with_fuel(value, 5);
    if s.len() == 2 || s.len() == 4 {
        let t = s.drop_last();
        assert(t.last() == s[s.len() - 2]);
        if s.len() == 4 {
            let u = t.drop_last();
            assert(u.last() == s[1]);
            assert(u.drop_last().last() == s[0]);
        }
    }
}

/// A byte string spells what its front spells, shifted by the length of its back, and what its back
/// spells.
proof fn values_join(front: Seq<u8>, back: Seq<u8>)
    requires
        back.len() == 4,
    ensures
        value(front + back) == value(front) * 0x1_0000_0000 + value(back),
{
    reveal_with_fuel(value, 5);
    let all = front + back;
    let b = all.drop_last();
    let c = b.drop_last();
    let d = c.drop_last();
    assert(d.drop_last() =~= front);
    assert(all.last() == back[3] && b.last() == back[2] && c.last() == back[1] && d.last()
        == back[0]);
    short_values(back);
}

/// The bytes of an integer are two, four or eight and spell it in base 256, most significant first,
/// and what is read from as many bytes is what they spell.
pub proof fn integers_are_spelled_out(a: u16, b: u32, c: u64, two: Seq<u8>, four: Seq<u8>, eight: Seq<u8>)
    requires
        two.len() == 2,
        four.len() == 4,
        eight.len() == 8,
    ensures
        be16(a).len() == 2 && value(be16(a)) == a,
        be32(b).len() == 4 && value(be32(b)) == b,
        be64(c).len() == 8 && value(be64(c)) == c,
        from_be16(two) == value(two),
        from_be32(four) == value(four),
        from_be64(eight) == value(eight),
{
    short_values(two);
    short_values(be16(a));
    short_values(four);
    short_values(be32(b));
    sum_of_bytes(b);
    let high = (c / 0x1_0000_0000) as u32;
    let low = (c % 0x1_0000_0000) as u32;
    short_values(be32(high));
    short_values(be32(low));
    sum_of_bytes(high);
    sum_of_bytes(low);
    values_join(be32(high), be32(low));
    let front = eight.subrange(0, 4);
    let back = eight.subrange(4, 8);
    short_values(front);
    short_values(back);
    values_join(front, back);
    assert(front + back =~= eight);
}

} // verus!
