//! Authorization tokens and the checks made on the `Authorization` header.

use vstd::prelude::*;
use crate::address::{bytes_equal, copy_bytes, starts_with};

verus! {

/// A byte that an HTTP header value may hold: visible ASCII, space, tab, or
/// any byte from 0x80 up.
pub open spec fn is_header_byte(b: u8) -> bool {
    (b >= 32 && b != 127) || b == 9
}

pub open spec fn is_header_value(s: Seq<u8>) -> bool {
    forall|i: int| 0 <= i < s.len() ==> is_header_byte(#[trigger] s[i])
}

/// `Bearer `.
pub open spec fn bearer_prefix() -> Seq<u8> {
    seq![66u8, 101u8, 97u8, 114u8, 101u8, 114u8, 32u8]
}

/// The token in an `Authorization` value: without a leading `Bearer `.
pub open spec fn strip_bearer(s: Seq<u8>) -> Seq<u8> {
    if s.len() >= 7 && s.subrange(0, 7) == bearer_prefix() {
        s.subrange(7, s.len() as int)
    } else {
        s
    }
}

pub fn is_header_value_bytes(s: &[u8]) -> (r: bool)
    ensures
        r == is_header_value(s@),
{
    let mut i: usize = 0;
    while i < s.len()
        invariant
            i <= s@.len(),
            forall|j: int| 0 <= j < i ==> is_header_byte(#[trigger] s@[j]),
        decreases s.len() - i,
    {
        let b = s[i];
        if !((b >= 32 && b != 127) || b == 9) {
            return false;
        }
        i += 1;
    }
    true
}

/// The bytes are not a valid header value.
#[derive(Clone, Copy, Debug, PartialEq, Eq)]
pub struct InvalidHeaderValue {}

/// A token that can be sent as an HTTP header value.
#[derive(Debug, PartialEq, Eq)]
pub struct AuthToken {
    bytes: Vec<u8>,
}

impl View for AuthToken {
    type V = Seq<u8>;

    closed spec fn view(&self) -> Seq<u8> {
        self.bytes@
    }
}

impl Clone for AuthToken {
    fn clone(&self) -> (r: AuthToken)
        ensures
            r@ == self@,
    {
        proof {
            use_type_invariant(self);
        }
        let bytes = copy_bytes(self.bytes.as_slice(), 0, self.bytes.len());
        assert(bytes@ =~= self.bytes@);
        AuthToken { bytes }
    }
}

impl AuthToken {
    #[verifier::type_invariant]
    spec fn inv(&self) -> bool {
        is_header_value(self.bytes@)
    }

    /// Accepts `bytes` if they can stand in a header.
    pub fn try_from(bytes: Vec<u8>) -> (r: Result<AuthToken, InvalidHeaderValue>)
        ensures
            r is Ok <==> is_header_value(bytes@),
            r matches Ok(t) ==> t@ == bytes@,
    {
        if is_header_value_bytes(bytes.as_slice()) {
            Ok(AuthToken { bytes })
        } else {
            Err(InvalidHeaderValue {})
        }
    }

    pub fn as_bytes(&self) -> (r: &[u8])
        ensures
            r@ == self@,
            is_header_value(self@),
    {
        proof {
            use_type_invariant(self);
        }
        self.bytes.as_slice()
    }
}

/// The token carried by an `Authorization` value.
pub fn strip_bearer_prefix(value: &[u8]) -> (r: Vec<u8>)
    ensures
        r@ == strip_bearer(value@),
{
    let prefix: Vec<u8> = vec![66u8, 101u8, 97u8, 114u8, 101u8, 114u8, 32u8];
    assert(prefix@ =~= bearer_prefix());
    if starts_with(value, prefix.as_slice()) {
        copy_bytes(value, 7, value.len())
    } else {
        let r = copy_bytes(value, 0, value.len());
        assert(r@ =~= value@);
        r
    }
}

pub open spec fn has_token(tokens: Seq<AuthToken>, t: Seq<u8>) -> bool {
    exists|i: int| 0 <= i < tokens.len() && (#[trigger] tokens[i])@ == t
}

/// Whether `t` is one of `tokens`.
pub fn contains_token(tokens: &Vec<AuthToken>, t: &[u8]) -> (r: bool)
    ensures
        r == has_token(tokens@, t@),
{
    let mut i: usize = 0;
    while i < tokens.len()
        invariant
            i <= tokens@.len(),
            forall|j: int| 0 <= j < i ==> (#[trigger] tokens@[j])@ != t@,
        decreases tokens.len() - i,
    {
        if bytes_equal(tokens[i].as_bytes(), t) {
            return true;
        }
        i += 1;
    }
    false
}

/// Admits requests whose `Authorization` header holds one of the configured
/// tokens, with or without a `Bearer ` prefix.
#[derive(Debug)]
pub struct AuthTokenFilter {
    pub tokens: Vec<AuthToken>,
}

impl AuthTokenFilter {
    pub fn new(tokens: Vec<AuthToken>) -> (r: AuthTokenFilter)
        ensures
            r.tokens@ == tokens@,
    {
        AuthTokenFilter { tokens }
    }

    /// Whether a request with this `Authorization` header (if any) is
    /// admitted; the others get 401.
    pub fn is_authorized(&self, authorization: Option<&[u8]>) -> (r: bool)
        ensures
            r == (authorization matches Some(h) && has_token(self.tokens@, strip_bearer(h@))),
    {
        match authorization {
            None => false,
            Some(h) => {
                let t = strip_bearer_prefix(h);
                contains_token(&self.tokens, t.as_slice())
            },
        }
    }
}

} // verus!
