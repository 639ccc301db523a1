//! The ports on which a client listens.
use crate::text;
use vstd::prelude::*;

verus! {

/// The first of the recommended ports.
pub const FIRST_PORT: u16 = 6881;

/// The last of the recommended ports.
pub const LAST_PORT: u16 = 6889;

/// The `n`th port that is tried, from 0 on: the recommended ports in ascending order.
pub open spec fn candidate(n: int) -> Option<u16> {
    if 0 <= n <= LAST_PORT - FIRST_PORT {
        Some((FIRST_PORT + n) as u16)
    } else {
        None
    }
}

/// The port to try after `failed` ports could not be bound, or an error when none is left.
pub fn next_port(failed: u16) -> (port: Result<u16, &'static str>)
    ensures
        match port {
            Ok(port) => candidate(failed as int) == Some(port),
            Err(message) => candidate(failed as int) is None && message@
                == "Unable to find an open port"@,
        },
{
    if failed <= LAST_PORT - FIRST_PORT {
        Ok(FIRST_PORT + failed)
    } else {
        Err("Unable to find an open port")
    }
}

/// The address on which to listen at a port.
pub fn listen_address(port: u16) -> (address: String)
    ensures
        address@ == "127.0.0.1:"@ + text::decimal(port as nat),
{
    let mut address = "127.0.0.1:".to_owned();
    text::push_decimal(&mut address, port as u64);
    address
}

/// Every recommended port is tried, each once, and no other.
pub proof fn every_port_is_tried_once(port: u16)
    ensures
        FIRST_PORT <= port <= LAST_PORT <==> exists|n: int| #[trigger] candidate(n) == Some(port),
        forall|m: int, n: int|
            #[trigger] candidate(m) is Some && #[trigger] candidate(n) == candidate(m) ==> m == n,
{
    if FIRST_PORT <= port <= LAST_PORT {
        assert(candidate(port - FIRST_PORT) == Some(port));
    }
}

/// The ports are tried from the first recommended one upwards, one after the other, nine in all.
pub proof fn ports_are_tried_upwards(n: int)
    ensures
        candidate(0) == Some(6881u16),
        candidate(n) is Some <==> 0 <= n < 9,
        candidate(n) is Some && candidate(n + 1) is Some ==> candidate(n + 1)->0 == candidate(n)->0
            + 1,
{
}

} // verus!
