//! ILP addresses: dot-separated segments over `[A-Za-z0-9_-]`, 1 to 1023
//! bytes long, with no empty segment.

use vstd::prelude::*;

verus! {

pub const MAX_ADDRESS_LEN: usize = 1023;

pub open spec fn is_segment_byte(b: u8) -> bool {
    b == 45 || b == 95 || (65 <= b && b <= 90) || (97 <= b && b <= 122) || (48 <= b && b <= 57)
}

/// A non-empty run of segment bytes.
pub open spec fn is_valid_segment(s: Seq<u8>) -> bool {
    s.len() > 0 && forall|i: int| 0 <= i < s.len() ==> is_segment_byte(#[trigger] s[i])
}

/// Segment bytes and dots, neither leading nor trailing nor doubled.
pub open spec fn is_valid_address(s: Seq<u8>) -> bool {
    &&& 1 <= s.len() <= MAX_ADDRESS_LEN
    &&& s[0] != 46u8
    &&& s[s.len() - 1] != 46u8
    &&& forall|i: int| 0 <= i < s.len() ==> (#[trigger] s[i] == 46u8 || is_segment_byte(s[i]))
    &&& forall|i: int| 0 <= i < s.len() - 1 ==> !(#[trigger] s[i] == 46u8 && s[i + 1] == 46u8)
}

/// `a ⧺ "." ⧺ b`.
pub open spec fn join_address(a: Seq<u8>, b: Seq<u8>) -> Seq<u8> {
    a.push(46u8) + b
}

pub fn is_segment_char(b: u8) -> (r: bool)
    ensures
        r == is_segment_byte(b),
{
    b == 45 || b == 95 || (65 <= b && b <= 90) || (97 <= b && b <= 122) || (48 <= b && b <= 57)
}

/// Whether `segment` is a valid address segment.
pub fn validate_address_segment(segment: &[u8]) -> (r: bool)
    ensures
        r == is_valid_segment(segment@),
{
    if segment.len() == 0 {
        return false;
    }
    let mut i: usize = 0;
    while i < segment.len()
        invariant
            i <= segment@.len(),
            forall|j: int| 0 <= j < i ==> is_segment_byte(#[trigger] segment@[j]),
        decreases segment.len() - i,
    {
        if !is_segment_char(segment[i]) {
            return false;
        }
        i += 1;
    }
    true
}

/// Whether `s` is a valid ILP address.
pub fn validate_address(s: &[u8]) -> (r: bool)
    ensures
        r == is_valid_address(s@),
{
    let n = s.len();
    if n == 0 || n > MAX_ADDRESS_LEN || s[0] == 46 || s[n - 1] == 46 {
        return false;
    }
    let mut i: usize = 0;
    while i < n
        invariant
            n == s@.len(),
            i <= n,
            forall|j: int| 0 <= j < i ==> (#[trigger] s@[j] == 46u8 || is_segment_byte(s@[j])),
            forall|j: int| 0 <= j < i && j < n - 1 ==> !(#[trigger] s@[j] == 46u8 && s@[j + 1] == 46u8),
        decreases n - i,
    {
        let b = s[i];
        if b == 46 {
            if i + 1 < n && s[i + 1] == 46 {
                return false;
            }
        } else if !is_segment_char(b) {
            return false;
        }
        i += 1;
    }
    true
}

/// Why bytes are not an address.
#[derive(Clone, Copy, Debug, PartialEq, Eq)]
pub enum AddressError {
    Invalid,
}

/// An owned, validated ILP address.
#[derive(Debug, PartialEq, Eq)]
pub struct Address {
    bytes: Vec<u8>,
}

impl View for Address {
    type V = Seq<u8>;

    closed spec fn view(&self) -> Seq<u8> {
        self.bytes@
    }
}

impl Clone for Address {
    fn clone(&self) -> (r: Address)
        ensures
            r@ == self@,
    {
        proof {
            use_type_invariant(self);
        }
        let bytes = copy_bytes(self.bytes.as_slice(), 0, self.bytes.len());
        assert(bytes@ =~= self.bytes@);
        Address { bytes }
    }
}

impl Address {
    #[verifier::type_invariant]
    spec fn inv(&self) -> bool {
        is_valid_address(self.bytes@)
    }

    /// Validates `bytes` as an address.
    pub fn try_from(bytes: Vec<u8>) -> (r: Result<Address, AddressError>)
        ensures
            is_valid_address(bytes@) <==> r is Ok,
            r matches Ok(a) ==> a@ == bytes@,
    {
        if validate_address(bytes.as_slice()) {
            Ok(Address { bytes })
        } else {
            Err(AddressError::Invalid)
        }
    }

    /// Wraps bytes that are known to form an address.
    pub fn from_valid(bytes: Vec<u8>) -> (r: Address)
        requires
            is_valid_address(bytes@),
        ensures
            r@ == bytes@,
    {
        Address { bytes }
    }

    /// Validates a copy of `bytes` as an address.
    pub fn from_slice(bytes: &[u8]) -> (r: Result<Address, AddressError>)
        ensures
            is_valid_address(bytes@) <==> r is Ok,
            r matches Ok(a) ==> a@ == bytes@,
    {
        let v = copy_bytes(bytes, 0, bytes.len());
        assert(v@ =~= bytes@);
        Address::try_from(v)
    }

    /// The address's bytes.
    pub fn as_slice(&self) -> (r: &[u8])
        ensures
            r@ == self@,
            is_valid_address(self@),
    {
        proof {
            use_type_invariant(self);
        }
        self.bytes.as_slice()
    }

    pub fn len(&self) -> (r: usize)
        ensures
            r == self@.len(),
            1 <= r <= MAX_ADDRESS_LEN,
    {
        proof {
            use_type_invariant(self);
        }
        self.bytes.len()
    }

    /// Whether two addresses hold the same bytes.
    pub fn equals(&self, other: &Address) -> (r: bool)
        ensures
            r == (self@ == other@),
    {
        bytes_equal(self.as_slice(), other.as_slice())
    }

    /// The address with one more segment: `self ⧺ "." ⧺ suffix`, if that is
    /// a valid address.
    pub fn with_suffix(&self, suffix: &[u8]) -> (r: Result<Address, AddressError>)
        ensures
            is_valid_address(join_address(self@, suffix@)) <==> r is Ok,
            r matches Ok(a) ==> a@ == join_address(self@, suffix@),
    {
        let mut bytes = copy_bytes(self.as_slice(), 0, self.len());
        bytes.push(46);
        let mut i: usize = 0;
        let ghost base = bytes@;
        while i < suffix.len()
            invariant
                i <= suffix@.len(),
                base == self@.push(46u8),
                bytes@ == base + suffix@.subrange(0, i as int),
            decreases suffix.len() - i,
        {
            bytes.push(suffix[i]);
            i += 1;
            assert(bytes@ =~= base + suffix@.subrange(0, i as int));
        }
        assert(suffix@.subrange(0, suffix@.len() as int) =~= suffix@);
        Address::try_from(bytes)
    }
}

/// A copy of `buf[start..end]`.
pub fn copy_bytes(buf: &[u8], start: usize, end: usize) -> (r: Vec<u8>)
    requires
        start <= end <= buf@.len(),
    ensures
        r@ == buf@.subrange(start as int, end as int),
{
    let mut out: Vec<u8> = Vec::new();
    let mut i: usize = start;
    while i < end
        invariant
            start <= i <= end,
            end <= buf@.len(),
            out@ == buf@.subrange(start as int, i as int),
        decreases end - i,
    {
        out.push(buf[i]);
        i += 1;
        assert(out@ =~= buf@.subrange(start as int, i as int));
    }
    out
}

/// Whether two byte strings are equal.
pub fn bytes_equal(a: &[u8], b: &[u8]) -> (r: bool)
    ensures
        r == (a@ == b@),
{
    if a.len() != b.len() {
        return false;
    }
    let mut i: usize = 0;
    while i < a.len()
        invariant
            a@.len() == b@.len(),
            i <= a@.len(),
            forall|j: int| 0 <= j < i ==> a@[j] == b@[j],
        decreases a.len() - i,
    {
        if a[i] != b[i] {
            return false;
        }
        i += 1;
    }
    assert(a@ =~= b@);
    true
}

/// Whether `s` begins with `prefix`.
pub fn starts_with(s: &[u8], prefix: &[u8]) -> (r: bool)
    ensures
        r == (prefix@.len() <= s@.len() && s@.subrange(0, prefix@.len() as int) == prefix@),
{
    if prefix.len() > s.len() {
        return false;
    }
    let mut i: usize = 0;
    while i < prefix.len()
        invariant
            prefix@.len() <= s@.len(),
            i <= prefix@.len(),
            forall|j: int| 0 <= j < i ==> s@[j] == prefix@[j],
        decreases prefix.len() - i,
    {
        if s[i] != prefix[i] {
            assert(s@.subrange(0, prefix@.len() as int)[i as int] != prefix@[i as int]);
            return false;
        }
        i += 1;
    }
    assert(s@.subrange(0, prefix@.len() as int) =~= prefix@);
    true
}

} // verus!
