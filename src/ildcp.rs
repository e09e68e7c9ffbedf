//! ILDCP: the Prepare to `peer.config` by which a child asks for its address,
//! and the Fulfill that answers it.

use vstd::prelude::*;
use crate::address::{Address, bytes_equal, copy_bytes, is_valid_address};
use crate::oer::{lemma_var_octets_round_trip, parse_var_octets, put_var_octets, read_var_octets, var_octets};
use crate::packet::{
    Fulfill, FulfillView, MAX_DATA_LEN, ParseError, Prepare, append,
};
use crate::timestamp::{Timestamp, timestamp_valid};

verus! {

/// `peer.config`.
pub open spec fn ildcp_destination() -> Seq<u8> {
    seq![112u8, 101u8, 101u8, 114u8, 46u8, 99u8, 111u8, 110u8, 102u8, 105u8, 103u8]
}

/// The condition whose preimage is the all-zero fulfillment.
pub open spec fn peer_protocol_condition() -> Seq<u8> {
    seq![
        0x66u8, 0x68u8, 0x7au8, 0xadu8, 0xf8u8, 0x62u8, 0xbdu8, 0x77u8,
        0x6cu8, 0x8fu8, 0xc1u8, 0x8bu8, 0x8eu8, 0x9fu8, 0x8eu8, 0x20u8,
        0x08u8, 0x97u8, 0x14u8, 0x85u8, 0x6eu8, 0xe2u8, 0x33u8, 0xb3u8,
        0x90u8, 0x2au8, 0x59u8, 0x1du8, 0x0du8, 0x5fu8, 0x29u8, 0x25u8,
    ]
}

/// Thirty-two zero bytes.
pub open spec fn peer_protocol_fulfillment() -> Seq<u8> {
    Seq::new(32, |i: int| 0u8)
}

pub fn ildcp_destination_bytes() -> (r: Vec<u8>)
    ensures
        r@ == ildcp_destination(),
{
    let v: Vec<u8> = vec![112u8, 101u8, 101u8, 114u8, 46u8, 99u8, 111u8, 110u8, 102u8, 105u8, 103u8];
    assert(v@ =~= ildcp_destination());
    v
}

pub fn peer_protocol_condition_bytes() -> (r: Vec<u8>)
    ensures
        r@ == peer_protocol_condition(),
{
    let v: Vec<u8> = vec![
        0x66u8, 0x68u8, 0x7au8, 0xadu8, 0xf8u8, 0x62u8, 0xbdu8, 0x77u8,
        0x6cu8, 0x8fu8, 0xc1u8, 0x8bu8, 0x8eu8, 0x9fu8, 0x8eu8, 0x20u8,
        0x08u8, 0x97u8, 0x14u8, 0x85u8, 0x6eu8, 0xe2u8, 0x33u8, 0xb3u8,
        0x90u8, 0x2au8, 0x59u8, 0x1du8, 0x0du8, 0x5fu8, 0x29u8, 0x25u8,
    ];
    assert(v@ =~= peer_protocol_condition());
    v
}

pub fn peer_protocol_fulfillment_bytes() -> (r: Vec<u8>)
    ensures
        r@ == peer_protocol_fulfillment(),
{
    let mut v: Vec<u8> = Vec::new();
    let mut i: usize = 0;
    while i < 32
        invariant
            i <= 32,
            v@ == Seq::new(i as nat, |j: int| 0u8),
        decreases 32 - i,
    {
        v.push(0);
        i += 1;
        assert(v@ =~= Seq::new(i as nat, |j: int| 0u8));
    }
    v
}

/// The address `peer.config`.
pub fn ildcp_destination_address() -> (r: Address)
    ensures
        r@ == ildcp_destination(),
{
    let v = ildcp_destination_bytes();
    let ghost s = v@;
    assert(is_valid_address(s)) by {
        assert forall|i: int| 0 <= i < s.len() implies (#[trigger] s[i] == 46u8
            || crate::address::is_segment_byte(s[i])) by {}
        assert forall|i: int| 0 <= i < s.len() - 1 implies !(#[trigger] s[i] == 46u8 && s[i
            + 1] == 46u8) by {}
    }
    Address::from_valid(v)
}

/// The ILDCP request, which carries nothing of its own.
#[derive(Debug, Default, PartialEq, Eq)]
pub struct Request {}

impl Request {
    pub fn new() -> Request {
        Request {}
    }

    /// Accepts a Prepare to `peer.config` with the peer protocol condition.
    pub fn try_from(prepare: &Prepare) -> (r: Result<Request, ParseError>)
        ensures
            r is Ok <==> (prepare@.destination == ildcp_destination()
                && prepare@.execution_condition == peer_protocol_condition()),
            r matches Err(e) ==> e == ParseError::InvalidPacket,
    {
        let dest = ildcp_destination_bytes();
        if !bytes_equal(prepare.destination.as_slice(), dest.as_slice()) {
            return Err(ParseError::InvalidPacket);
        }
        let cond = peer_protocol_condition_bytes();
        if !bytes_equal(prepare.execution_condition.as_slice(), cond.as_slice()) {
            return Err(ParseError::InvalidPacket);
        }
        Ok(Request {})
    }

    /// The Prepare that asks for the configuration, expiring at `expires_at`.
    pub fn to_prepare(&self, expires_at: Timestamp) -> (r: Prepare)
        ensures
            r.amount == 0,
            r.expires_at == expires_at,
            r@.destination == ildcp_destination(),
            r@.execution_condition == peer_protocol_condition(),
            r@.data.len() == 0,
            timestamp_valid(expires_at) ==> r.wf(),
    {
        Prepare {
            amount: 0,
            expires_at,
            execution_condition: peer_protocol_condition_bytes(),
            destination: ildcp_destination_address(),
            data: Vec::new(),
        }
    }
}

pub struct ResponseView {
    pub client_address: Seq<u8>,
    pub asset_scale: u8,
    pub asset_code: Seq<u8>,
}

/// The bytes that a Fulfill carries for an ILDCP response.
pub open spec fn response_data(v: ResponseView) -> Seq<u8> {
    var_octets(v.client_address) + seq![v.asset_scale] + var_octets(v.asset_code)
}

/// Reads an ILDCP response from a Fulfill: the fulfillment must be all zero;
/// bytes after the asset code are ignored.
pub open spec fn parse_response(f: FulfillView) -> Option<ResponseView> {
    if f.fulfillment != peer_protocol_fulfillment() {
        None
    } else {
        match parse_var_octets(f.data) {
            Some((addr, n1)) => {
                let rest = f.data.subrange(n1 as int, f.data.len() as int);
                if !is_valid_address(addr) || rest.len() == 0 {
                    None
                } else {
                    match parse_var_octets(rest.subrange(1, rest.len() as int)) {
                        Some((code, n2)) => Some(
                            ResponseView { client_address: addr, asset_scale: rest[0], asset_code: code },
                        ),
                        None => None,
                    }
                }
            },
            None => None,
        }
    }
}

/// Reading back the Fulfill built for an ILDCP response gives the response.
pub proof fn lemma_response_round_trip(v: ResponseView)
    requires
        is_valid_address(v.client_address),
        v.asset_code.len() < 0x1_0000_0000_0000_0000,
    ensures
        parse_response(FulfillView { fulfillment: peer_protocol_fulfillment(), data: response_data(v) })
            == Some(v),
{
    let d1 = var_octets(v.client_address);
    let d2 = var_octets(v.asset_code);
    let d = response_data(v);
    assert(d =~= d1 + (seq![v.asset_scale] + d2));
    lemma_var_octets_round_trip(v.client_address, seq![v.asset_scale] + d2);
    let rest = d.subrange(d1.len() as int, d.len() as int);
    assert(rest =~= seq![v.asset_scale] + d2);
    assert(rest.subrange(1, rest.len() as int) =~= d2 + Seq::<u8>::empty());
    lemma_var_octets_round_trip(v.asset_code, Seq::empty());
}

/// An ILDCP response: the child's address and the connector's asset.
#[derive(Clone, Debug, PartialEq, Eq)]
pub struct Response {
    pub client_address: Address,
    pub asset_scale: u8,
    pub asset_code: Vec<u8>,
}

impl View for Response {
    type V = ResponseView;

    open spec fn view(&self) -> ResponseView {
        ResponseView {
            client_address: self.client_address@,
            asset_scale: self.asset_scale,
            asset_code: self.asset_code@,
        }
    }
}

impl Response {
    /// Reads the response that `fulfill` carries.
    pub fn try_from(fulfill: &Fulfill) -> (r: Result<Response, ParseError>)
        ensures
            match parse_response(fulfill@) {
                Some(v) => r matches Ok(x) && x@ == v,
                None => r == Err::<Response, ParseError>(ParseError::InvalidPacket),
            },
    {
        let zeros = peer_protocol_fulfillment_bytes();
        if !bytes_equal(fulfill.fulfillment.as_slice(), zeros.as_slice()) {
            return Err(ParseError::InvalidPacket);
        }
        let buf = fulfill.data.as_slice();
        let n = buf.len();
        assert(buf@.subrange(0, n as int) =~= buf@);
        let (s1, e1) = match read_var_octets(buf, 0) {
            Some(x) => x,
            None => return Err(ParseError::InvalidPacket),
        };
        let client_address = match Address::try_from(copy_bytes(buf, s1, e1)) {
            Ok(a) => a,
            Err(_) => return Err(ParseError::InvalidPacket),
        };
        if e1 >= n {
            return Err(ParseError::InvalidPacket);
        }
        let ghost rest = buf@.subrange(e1 as int, n as int);
        let asset_scale = buf[e1];
        assert(rest.subrange(1, rest.len() as int) =~= buf@.subrange(e1 + 1, n as int));
        let (s2, e2) = match read_var_octets(buf, e1 + 1) {
            Some(x) => x,
            None => return Err(ParseError::InvalidPacket),
        };
        let asset_code = copy_bytes(buf, s2, e2);
        Ok(Response { client_address, asset_scale, asset_code })
    }

    pub fn client_address(&self) -> (r: &Address)
        ensures
            r@ == self.client_address@,
    {
        &self.client_address
    }

    pub fn asset_scale(&self) -> (r: u8)
        ensures
            r == self.asset_scale,
    {
        self.asset_scale
    }

    pub fn asset_code(&self) -> (r: &[u8])
        ensures
            r@ == self.asset_code@,
    {
        self.asset_code.as_slice()
    }

    /// The Fulfill that carries this response.
    pub fn to_fulfill(&self) -> (r: Fulfill)
        ensures
            r@ == (FulfillView { fulfillment: peer_protocol_fulfillment(), data: response_data(self@) }),
            self@.asset_code.len() <= 30000 ==> r.wf(),
    {
        let mut data: Vec<u8> = Vec::new();
        put_var_octets(&mut data, self.client_address.as_slice());
        data.push(self.asset_scale);
        put_var_octets(&mut data, self.asset_code.as_slice());
        assert(data@ =~= response_data(self@));
        proof {
            lemma_var_octets_round_trip(self@.client_address, Seq::empty());
            if self@.asset_code.len() <= 30000 {
                lemma_var_octets_round_trip(self@.asset_code, Seq::empty());
            }
        }
        Fulfill { fulfillment: peer_protocol_fulfillment_bytes(), data }
    }
}

/// The parts of an ILDCP response to be built.
#[derive(Debug)]
pub struct ResponseBuilder {
    pub client_address: Address,
    pub asset_scale: u8,
    pub asset_code: Vec<u8>,
}

impl ResponseBuilder {
    pub fn build(&self) -> (r: Response)
        ensures
            r@ == (ResponseView {
                client_address: self.client_address@,
                asset_scale: self.asset_scale,
                asset_code: self.asset_code@,
            }),
    {
        let asset_code = copy_bytes(self.asset_code.as_slice(), 0, self.asset_code.len());
        assert(asset_code@ =~= self.asset_code@);
        Response { client_address: self.client_address.clone(), asset_scale: self.asset_scale, asset_code }
    }
}

} // verus!
