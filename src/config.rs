//! The connector's configuration once read: its relatives, and how their
//! addresses and tokens follow from the connector's own address.

use vstd::prelude::*;
use crate::address::{Address, AddressError, is_valid_address, join_address};
use crate::auth::AuthToken;
use crate::ildcp::{Response, ResponseView};
use crate::peers::{ConnectorPeer, Relation};

verus! {

/// A relative as configured; `auth` lists the tokens it may send.
#[derive(Debug)]
pub enum RelationConfig {
    /// A child's address is the connector's address with `suffix` appended.
    Child { account: String, auth: Vec<AuthToken>, suffix: Vec<u8> },
    Peer { account: String, auth: Vec<AuthToken> },
    Parent { account: String, auth: Vec<AuthToken> },
}

pub open spec fn relation_of(c: RelationConfig) -> Relation {
    match c {
        RelationConfig::Child { .. } => Relation::Child,
        RelationConfig::Peer { .. } => Relation::Peer,
        RelationConfig::Parent { .. } => Relation::Parent,
    }
}

pub open spec fn tokens_of(c: RelationConfig) -> Seq<AuthToken> {
    match c {
        RelationConfig::Child { auth, .. } => auth@,
        RelationConfig::Peer { auth, .. } => auth@,
        RelationConfig::Parent { auth, .. } => auth@,
    }
}

pub open spec fn account_of(c: RelationConfig) -> Seq<char> {
    match c {
        RelationConfig::Child { account, .. } => account@,
        RelationConfig::Peer { account, .. } => account@,
        RelationConfig::Parent { account, .. } => account@,
    }
}

/// The address a relative gets under a connector at `parent`: a child's is
/// `parent ⧺ "." ⧺ suffix`; the others are logged under `parent` itself.
pub open spec fn relative_address(c: RelationConfig, parent: Seq<u8>) -> Seq<u8> {
    match c {
        RelationConfig::Child { suffix, .. } => join_address(parent, suffix@),
        _ => parent,
    }
}

pub open spec fn same_tokens(a: Seq<AuthToken>, b: Seq<AuthToken>) -> bool {
    a.len() == b.len() && forall|i: int| 0 <= i < a.len() ==> (#[trigger] a[i])@ == b[i]@
}

fn copy_tokens(tokens: &Vec<AuthToken>) -> (r: Vec<AuthToken>)
    ensures
        same_tokens(r@, tokens@),
{
    let mut out: Vec<AuthToken> = Vec::new();
    let mut i: usize = 0;
    while i < tokens.len()
        invariant
            i <= tokens@.len(),
            out@.len() == i,
            forall|j: int| 0 <= j < i ==> (#[trigger] out@[j])@ == tokens@[j]@,
        decreases tokens.len() - i,
    {
        out.push(tokens[i].clone());
        i += 1;
    }
    out
}

impl RelationConfig {
    pub fn relation(&self) -> (r: Relation)
        ensures
            r == relation_of(*self),
    {
        match self {
            RelationConfig::Child { .. } => Relation::Child,
            RelationConfig::Peer { .. } => Relation::Peer,
            RelationConfig::Parent { .. } => Relation::Parent,
        }
    }

    pub fn auth_tokens(&self) -> (r: &Vec<AuthToken>)
        ensures
            r@ == tokens_of(*self),
    {
        match self {
            RelationConfig::Child { auth, .. } => auth,
            RelationConfig::Peer { auth, .. } => auth,
            RelationConfig::Parent { auth, .. } => auth,
        }
    }

    fn account(&self) -> (r: &String)
        ensures
            r@ == account_of(*self),
    {
        match self {
            RelationConfig::Child { account, .. } => account,
            RelationConfig::Peer { account, .. } => account,
            RelationConfig::Parent { account, .. } => account,
        }
    }

    /// The peer this relative is under a connector at `parent_address`; an
    /// error when a child's address would not be valid.
    pub fn with_parent(&self, parent_address: &Address) -> (r: Result<ConnectorPeer, AddressError>)
        ensures
            r is Ok <==> is_valid_address(relative_address(*self, parent_address@)),
            r matches Ok(p) ==> {
                &&& p.relation == relation_of(*self)
                &&& p.address@ == relative_address(*self, parent_address@)
                &&& p.account@ == account_of(*self)
                &&& same_tokens(p.auth@, tokens_of(*self))
            },
    {
        let address = match self {
            RelationConfig::Child { suffix, .. } => match parent_address.with_suffix(suffix.as_slice()) {
                Ok(a) => a,
                Err(e) => return Err(e),
            },
            _ => {
                let a = parent_address.clone();
                let _ = a.as_slice();
                a
            },
        };
        Ok(ConnectorPeer {
            relation: self.relation(),
            account: self.account().clone(),
            address,
            auth: copy_tokens(self.auth_tokens()),
        })
    }
}

/// The relatives' tokens, relative after relative.
pub open spec fn flat_tokens(relatives: Seq<RelationConfig>) -> Seq<AuthToken>
    decreases relatives.len(),
{
    if relatives.len() == 0 {
        Seq::empty()
    } else {
        flat_tokens(relatives.drop_last()) + tokens_of(relatives.last())
    }
}

/// Every token that some relative may send, relative after relative.
pub fn all_tokens(relatives: &Vec<RelationConfig>) -> (r: Vec<AuthToken>)
    ensures
        same_tokens(r@, flat_tokens(relatives@)),
{
    let mut out: Vec<AuthToken> = Vec::new();
    let mut i: usize = 0;
    while i < relatives.len()
        invariant
            i <= relatives@.len(),
            same_tokens(out@, flat_tokens(relatives@.subrange(0, i as int))),
        decreases relatives.len() - i,
    {
        let tokens = relatives[i].auth_tokens();
        let ghost base = flat_tokens(relatives@.subrange(0, i as int));
        let mut j: usize = 0;
        while j < tokens.len()
            invariant
                i < relatives@.len(),
                tokens@ == tokens_of(relatives@[i as int]),
                j <= tokens@.len(),
                same_tokens(out@, base + tokens@.subrange(0, j as int)),
            decreases tokens.len() - j,
        {
            let ghost prev = out@;
            out.push(tokens[j].clone());
            j += 1;
            assert forall|k: int| 0 <= k < out@.len() implies (#[trigger] out@[k])@ == (base + tokens@.subrange(0, j as int))[k]@ by {
                if k < prev.len() {
                    assert(out@[k] == prev[k]);
                    assert((base + tokens@.subrange(0, j as int))[k] == (base + tokens@.subrange(0, j - 1))[k]);
                }
            }
        }
        assert(relatives@.subrange(0, i + 1).drop_last() =~= relatives@.subrange(0, i as int));
        assert(tokens@.subrange(0, tokens@.len() as int) =~= tokens@);
        i += 1;
    }
    assert(relatives@.subrange(0, relatives@.len() as int) =~= relatives@);
    out
}

/// The peers that the relatives are under a connector at `address`, in
/// order; an error when one of them gets no valid address.
pub fn peers_of(relatives: &Vec<RelationConfig>, address: &Address) -> (r: Result<Vec<ConnectorPeer>, AddressError>)
    ensures
        r is Ok <==> forall|i: int| 0 <= i < relatives@.len() ==> is_valid_address(
            relative_address(#[trigger] relatives@[i], address@),
        ),
        r matches Ok(ps) ==> ps@.len() == relatives@.len() && forall|i: int| 0 <= i < ps@.len() ==> {
            &&& (#[trigger] ps@[i]).relation == relation_of(relatives@[i])
            &&& ps@[i].address@ == relative_address(relatives@[i], address@)
            &&& ps@[i].account@ == account_of(relatives@[i])
            &&& same_tokens(ps@[i].auth@, tokens_of(relatives@[i]))
        },
{
    let mut out: Vec<ConnectorPeer> = Vec::new();
    let mut i: usize = 0;
    while i < relatives.len()
        invariant
            i <= relatives@.len(),
            out@.len() == i,
            forall|k: int| 0 <= k < i ==> is_valid_address(relative_address(#[trigger] relatives@[k], address@)),
            forall|k: int| 0 <= k < i ==> {
                &&& (#[trigger] out@[k]).relation == relation_of(relatives@[k])
                &&& out@[k].address@ == relative_address(relatives@[k], address@)
                &&& out@[k].account@ == account_of(relatives@[k])
                &&& same_tokens(out@[k].auth@, tokens_of(relatives@[k]))
            },
        decreases relatives.len() - i,
    {
        match relatives[i].with_parent(address) {
            Ok(p) => out.push(p),
            Err(e) => return Err(e),
        }
        i += 1;
    }
    Ok(out)
}

/// The ILDCP response that a connector with a static root answers with.
pub fn static_root(address: Address, asset_scale: u8, asset_code: Vec<u8>) -> (r: Response)
    ensures
        r@ == (ResponseView { client_address: address@, asset_scale, asset_code: asset_code@ }),
{
    Response { client_address: address, asset_scale, asset_code }
}

} // verus!
