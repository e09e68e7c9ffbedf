//! Configured peers and how an incoming request is attributed to one.

use vstd::prelude::*;
use crate::address::Address;
use crate::auth::{AuthToken, contains_token, has_token, strip_bearer, strip_bearer_prefix};

verus! {

#[derive(Clone, Copy, Debug, PartialEq, Eq, Structural)]
pub enum Relation {
    Child,
    Peer,
    Parent,
}

/// A peer, and the tokens it authenticates with.
#[derive(Debug, PartialEq, Eq)]
pub struct ConnectorPeer {
    pub relation: Relation,
    /// A label for the peer, logged as the source account.
    pub account: String,
    pub address: Address,
    pub auth: Vec<AuthToken>,
}

pub open spec fn peer_accepts(p: ConnectorPeer, authorization: Seq<u8>) -> bool {
    has_token(p.auth@, strip_bearer(authorization))
}

impl ConnectorPeer {
    /// Whether this `Authorization` value names this peer.
    pub fn is_authorized(&self, authorization: &[u8]) -> (r: bool)
        ensures
            r == peer_accepts(*self, authorization@),
    {
        let t = strip_bearer_prefix(authorization);
        contains_token(&self.auth, t.as_slice())
    }
}

/// The first peer that an `Authorization` value names.
pub fn find_peer(peers: &Vec<ConnectorPeer>, authorization: Option<&[u8]>) -> (r: Option<usize>)
    ensures
        match authorization {
            None => r is None,
            Some(h) => match r {
                Some(i) => i < peers@.len() && peer_accepts(peers@[i as int], h@) && forall|j: int|
                    0 <= j < i ==> !peer_accepts(#[trigger] peers@[j], h@),
                None => forall|j: int|
                    0 <= j < peers@.len() ==> !peer_accepts(#[trigger] peers@[j], h@),
            },
        },
{
    if authorization.is_none() {
        return None;
    }
    let h = authorization.unwrap();
    let mut i: usize = 0;
    while i < peers.len()
        invariant
            i <= peers@.len(),
            authorization == Some(h),
            forall|j: int| 0 <= j < i ==> !peer_accepts(#[trigger] peers@[j], h@),
        decreases peers.len() - i,
    {
        if peers[i].is_authorized(h) {
            return Some(i);
        }
        i += 1;
    }
    None
}

} // verus!
