//! The decisions of a client around its sessions.
use crate::address::SocketAddrV4;
use crate::tracker::http::Response;
use vstd::prelude::*;

verus! {

/// The peers that the tracker knows of, or an error that tells why it gave none.
pub fn discover_peers(response: Response) -> (peers: Result<Vec<SocketAddrV4>, String>)
    ensures
        match response {
            Response::Success { peers: listed, .. } => peers == Ok::<
                Vec<SocketAddrV4>,
                String,
            >(listed.0),
            Response::Error { failure_reason } => peers matches Err(message) && message@
                == "Making request to tracker failed: "@ + failure_reason@,
        },
{
    match response.into_peers() {
        Ok(peers) => Ok(peers),
        Err(failure_reason) => {
            let mut message = "Making request to tracker failed: ".to_owned();
            message.append(failure_reason.as_str());
            Err(message)
        },
    }
}

/// The first peers, up to a limit.
pub open spec fn contacted_of(peers: Seq<SocketAddrV4>, max_peers: int) -> Seq<SocketAddrV4> {
    peers.take(
        if max_peers < peers.len() {
            max_peers
        } else {
            peers.len() as int
        },
    )
}

/// The peers to connect to: the first ones that the tracker named, up to a limit.
pub fn peers_to_contact(peers: &Vec<SocketAddrV4>, max_peers: usize) -> (contacted: Vec<
    SocketAddrV4,
>)
    ensures
        contacted@ == contacted_of(peers@, max_peers as int),
{
    let mut contacted: Vec<SocketAddrV4> = Vec::new();
    let mut i: usize = 0;
    while i < peers.len() && i < max_peers
        invariant
            i <= peers@.len(),
            i <= max_peers,
            contacted@ =~= peers@.take(i as int),
        decreases peers@.len() - i,
    {
        contacted.push(peers[i]);
        i = i + 1;
    }
    contacted
}

/// No more peers are contacted than the limit allows, none is passed over for a later one, and one is
/// left out only where the limit is reached.
pub proof fn the_first_peers_are_contacted(peers: Seq<SocketAddrV4>, max_peers: int)
    requires
        max_peers >= 0,
    ensures
        contacted_of(peers, max_peers).len() <= max_peers,
        contacted_of(peers, max_peers).len() <= peers.len(),
        contacted_of(peers, max_peers).len() == max_peers || contacted_of(peers, max_peers) == peers,
        forall|i: int|
            0 <= i < contacted_of(peers, max_peers).len() ==> #[trigger] contacted_of(
                peers,
                max_peers,
            )[i] == peers[i],
{
    if max_peers >= peers.len() {
        assert(contacted_of(peers, max_peers) =~= peers);
    }
}

} // verus!
