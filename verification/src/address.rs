//! The addresses of peers.
use crate::wire;
use vstd::prelude::*;

verus! {

/// An IPv4 address and a port.
#[derive(Copy, Clone, Debug, PartialEq, Eq)]
pub struct SocketAddrV4 {
    /// The four bytes of the address, as they are written.
    pub ip: [u8; 4],
    /// The port.
    pub port: u16,
}

/// An address in compact form: four bytes of IPv4 address, then two of port.
pub open spec fn compact(address: SocketAddrV4) -> Seq<u8> {
    address.ip@ + wire::be16(address.port)
}

/// The address that six bytes hold.
pub open spec fn holds(bytes: Seq<u8>, address: SocketAddrV4) -> bool {
    &&& address.ip@ == bytes.subrange(0, 4)
    &&& address.port == wire::from_be16(bytes.subrange(4, 6))
}

/// Every chunk of six bytes holds the address at its place in the list.
pub open spec fn lists(bytes: Seq<u8>, addresses: Seq<SocketAddrV4>) -> bool {
    &&& addresses.len() == bytes.len() / 6
    &&& forall|i: int|
        0 <= i < addresses.len() ==> holds(
            bytes.subrange(6 * i, 6 * i + 6),
            #[trigger] addresses[i],
        )
}

/// Reads the address in the six bytes that start at `at`.
pub fn read_compact(bytes: &[u8], at: usize) -> (address: SocketAddrV4)
    requires
        at + 6 <= bytes@.len(),
    ensures
        holds(bytes@.subrange(at as int, at + 6), address),
{
    let ip = [bytes[at], bytes[at + 1], bytes[at + 2], bytes[at + 3]];
    let port: u16 = wire::u16_at(bytes, at + 4);
    proof {
        let chunk = bytes@.subrange(at as int, at + 6);
        assert(ip@ =~= chunk.subrange(0, 4));
        assert(chunk.subrange(4, 6) =~= bytes@.subrange(at + 4, at + 6));
    }
    SocketAddrV4 { ip, port }
}

/// Reads the addresses in a byte string, six bytes each. What is left over is not read.
pub fn read_list(bytes: &[u8]) -> (addresses: Vec<SocketAddrV4>)
    ensures
        lists(bytes@, addresses@),
{
    let mut addresses: Vec<SocketAddrV4> = Vec::new();
    let count: usize = bytes.len() / 6;
    let mut i: usize = 0;
    while i < count
        invariant
            i <= count,
            count == bytes@.len() / 6,
            bytes.len() == bytes@.len(),
            addresses@.len() == i,
            forall|k: int|
                0 <= k < i ==> holds(
                    bytes@.subrange(6 * k, 6 * k + 6),
                    #[trigger] addresses@[k],
                ),
        decreases count - i,
    {
        addresses.push(read_compact(bytes, 6 * i));
        i = i + 1;
    }
    addresses
}

/// Addresses in compact form, one after the other.
pub open spec fn compact_list(addresses: Seq<SocketAddrV4>) -> Seq<u8>
    decreases addresses.len(),
{
    if addresses.len() == 0 {
        Seq::empty()
    } else {
        compact_list(addresses.drop_last()) + compact(addresses.last())
    }
}

/// The length of addresses in compact form.
pub proof fn compact_list_length(addresses: Seq<SocketAddrV4>)
    ensures
        compact_list(addresses).len() == 6 * addresses.len(),
    decreases addresses.len(),
{
    if addresses.len() > 0 {
        compact_list_length(addresses.drop_last());
    }
}

/// Each address stands at its place in the compact form.
proof fn compact_list_places(addresses: Seq<SocketAddrV4>, i: int)
    requires
        0 <= i < addresses.len(),
    ensures
        compact_list(addresses).len() == 6 * addresses.len(),
        compact_list(addresses).subrange(6 * i, 6 * i + 6) == compact(addresses[i]),
    decreases addresses.len(),
{
    let front = addresses.drop_last();
    compact_list_length(addresses);
    compact_list_length(front);
    let whole = compact_list(addresses);
    if i < front.len() {
        compact_list_places(front, i);
        assert(whole.subrange(6 * i, 6 * i + 6) =~= compact_list(front).subrange(6 * i, 6 * i + 6));
    } else {
        assert(whole.subrange(6 * i, 6 * i + 6) =~= compact(addresses[i]));
    }
}

/// Two addresses that the same six bytes hold are the same.
proof fn one_address(address: SocketAddrV4, other: SocketAddrV4)
    requires
        holds(compact(address), other),
    ensures
        other == address,
{
    let bytes = compact(address);
    assert(bytes.subrange(0, 4) =~= address.ip@);
    assert(bytes.subrange(4, 6) =~= wire::be16(address.port));
    wire::be16_round_trip(address.port, bytes.subrange(4, 6));
    assert(other.ip@ =~= address.ip@);
    assert(other.ip =~= address.ip);
}

/// Addresses that are written in compact form and read back are the same addresses.
pub proof fn lists_round_trip(addresses: Seq<SocketAddrV4>, read: Seq<SocketAddrV4>)
    requires
        lists(compact_list(addresses), read),
    ensures
        read == addresses,
{
    compact_list_length(addresses);
    assert forall|i: int| 0 <= i < addresses.len() implies read[i] == addresses[i] by {
        compact_list_places(addresses, i);
        one_address(addresses[i], read[i]);
    }
    assert(read =~= addresses);
}

/// Six bytes hold an address whose four bytes they begin with and whose port the last two spell, and
/// an address is written as such bytes.
pub proof fn addresses_are_spelled_out(bytes: Seq<u8>, address: SocketAddrV4)
    requires
        bytes.len() == 6,
    ensures
        holds(bytes, address) <==> (forall|k: int|
            0 <= k < 4 ==> #[trigger] address.ip@[k] == bytes[k]) && address.port == wire::value(
            bytes.subrange(4, 6),
        ),
        compact(address).len() == 6,
        forall|k: int| 0 <= k < 4 ==> #[trigger] compact(address)[k] == address.ip@[k],
        wire::value(compact(address).subrange(4, 6)) == address.port,
{
    let four = bytes.subrange(0, 4);
    wire::integers_are_spelled_out(
        address.port,
        0,
        0,
        bytes.subrange(4, 6),
        four,
        four + four,
    );
    assert(address.ip@.len() == 4);
    assert(compact(address).subrange(4, 6) =~= wire::be16(address.port));
    if forall|k: int| 0 <= k < 4 ==> #[trigger] address.ip@[k] == bytes[k] {
        assert(address.ip@ =~= four);
    }
    if holds(bytes, address) {
        assert forall|k: int| 0 <= k < 4 implies #[trigger] address.ip@[k] == bytes[k] by {
            assert(four[k] == bytes[k]);
        }
    }
}

/// A list of addresses has one for every six bytes: the address is the first four of them, and its
/// port is 256 times the fifth and the sixth.
pub proof fn listed_addresses_stand_in_order(bytes: Seq<u8>, addresses: Seq<SocketAddrV4>, i: int)
    requires
        lists(bytes, addresses),
        0 <= i < addresses.len(),
    ensures
        6 * addresses.len() <= bytes.len() < 6 * addresses.len() + 6,
        addresses[i].ip@ == seq![bytes[6 * i], bytes[6 * i + 1], bytes[6 * i + 2], bytes[6 * i + 3]],
        addresses[i].port == bytes[6 * i + 4] * 0x100 + bytes[6 * i + 5],
{
    let six = bytes.subrange(6 * i, 6 * i + 6);
    assert(holds(six, addresses[i]));
    addresses_are_spelled_out(six, addresses[i]);
    wire::short_values(six.subrange(4, 6));
    assert(six.subrange(4, 6)[0] == bytes[6 * i + 4]);
    assert(six.subrange(4, 6)[1] == bytes[6 * i + 5]);
    assert(addresses[i].ip@.len() == 4);
    assert forall|k: int| 0 <= k < 4 implies #[trigger] addresses[i].ip@[k] == bytes[6 * i + k] by {
        assert(addresses[i].ip@[k] == six[k]);
    }
    assert(addresses[i].ip@ =~= seq![
        bytes[6 * i],
        bytes[6 * i + 1],
        bytes[6 * i + 2],
        bytes[6 * i + 3],
    ]);
}

} // verus!
