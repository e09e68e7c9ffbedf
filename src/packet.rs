//! ILP packets: Prepare, Fulfill and Reject, their wire form and its parser.
//!
//! A packet is a one-byte type tag followed by its content as a
//! variable-length octet string.

use vstd::prelude::*;
use crate::address::{Address, copy_bytes, is_valid_address};
use crate::oer::{
    be_bytes, be_value, lemma_be_bytes_len, lemma_be_round_trip, lemma_pow256_8,
    lemma_var_octets_round_trip, parse_var_octets, put_be, put_var_octets, read_be,
    read_var_octets, var_octets,
};
use crate::timestamp::{
    Timestamp, lemma_timestamp_round_trip, parse_timestamp, timestamp_bytes, timestamp_valid,
};

verus! {

pub const PREPARE_TYPE: u8 = 12;

pub const FULFILL_TYPE: u8 = 13;

pub const REJECT_TYPE: u8 = 14;

pub const MAX_DATA_LEN: usize = 32768;

pub const MAX_MESSAGE_LEN: usize = 8192;

/// A three-character ILP error code such as `F02`.
#[derive(Clone, Copy, Debug, PartialEq, Eq)]
pub struct ErrorCode {
    pub class: u8,
    pub digit1: u8,
    pub digit2: u8,
}

pub open spec fn code_bytes(c: ErrorCode) -> Seq<u8> {
    seq![c.class, c.digit1, c.digit2]
}

pub open spec fn code_is_ascii(c: ErrorCode) -> bool {
    c.class < 128 && c.digit1 < 128 && c.digit2 < 128
}

pub open spec fn make_code(class: char, d1: char, d2: char) -> ErrorCode {
    ErrorCode { class: class as u8, digit1: d1 as u8, digit2: d2 as u8 }
}

impl ErrorCode {
    pub fn new(class: u8, digit1: u8, digit2: u8) -> (r: ErrorCode)
        ensures
            r == (ErrorCode { class, digit1, digit2 }),
    {
        ErrorCode { class, digit1, digit2 }
    }

    pub fn f00_bad_request() -> (r: ErrorCode)
        ensures
            r == make_code('F', '0', '0'),
    {
        ErrorCode::new(70, 48, 48)
    }

    pub fn f01_invalid_packet() -> (r: ErrorCode)
        ensures
            r == make_code('F', '0', '1'),
    {
        ErrorCode::new(70, 48, 49)
    }

    pub fn f02_unreachable() -> (r: ErrorCode)
        ensures
            r == make_code('F', '0', '2'),
    {
        ErrorCode::new(70, 48, 50)
    }

    pub fn t00_internal_error() -> (r: ErrorCode)
        ensures
            r == make_code('T', '0', '0'),
    {
        ErrorCode::new(84, 48, 48)
    }

    pub fn t01_peer_unreachable() -> (r: ErrorCode)
        ensures
            r == make_code('T', '0', '1'),
    {
        ErrorCode::new(84, 48, 49)
    }

    pub fn t03_connector_busy() -> (r: ErrorCode)
        ensures
            r == make_code('T', '0', '3'),
    {
        ErrorCode::new(84, 48, 51)
    }

    pub fn r00_transfer_timed_out() -> (r: ErrorCode)
        ensures
            r == make_code('R', '0', '0'),
    {
        ErrorCode::new(82, 48, 48)
    }

    pub fn r02_insufficient_timeout() -> (r: ErrorCode)
        ensures
            r == make_code('R', '0', '2'),
    {
        ErrorCode::new(82, 48, 50)
    }

    pub fn f99_application_error() -> (r: ErrorCode)
        ensures
            r == make_code('F', '9', '9'),
    {
        ErrorCode::new(70, 57, 57)
    }

    /// The code's three bytes.
    pub fn to_bytes(&self) -> (r: Vec<u8>)
        ensures
            r@ == code_bytes(*self),
    {
        let mut v: Vec<u8> = Vec::new();
        v.push(self.class);
        v.push(self.digit1);
        v.push(self.digit2);
        assert(v@ =~= code_bytes(*self));
        v
    }

    /// Whether two codes are the same.
    pub fn equals(&self, other: &ErrorCode) -> (r: bool)
        ensures
            r == (*self == *other),
    {
        self.class == other.class && self.digit1 == other.digit1 && self.digit2 == other.digit2
    }
}

pub struct PrepareView {
    pub amount: u64,
    pub expires_at: Timestamp,
    pub execution_condition: Seq<u8>,
    pub destination: Seq<u8>,
    pub data: Seq<u8>,
}

pub struct FulfillView {
    pub fulfillment: Seq<u8>,
    pub data: Seq<u8>,
}

pub struct RejectView {
    pub code: ErrorCode,
    pub triggered_by: Option<Seq<u8>>,
    pub message: Seq<u8>,
    pub data: Seq<u8>,
}

pub enum PacketView {
    Prepare(PrepareView),
    Fulfill(FulfillView),
    Reject(RejectView),
}

pub open spec fn prepare_view_wf(v: PrepareView) -> bool {
    &&& v.execution_condition.len() == 32
    &&& is_valid_address(v.destination)
    &&& v.data.len() <= MAX_DATA_LEN
    &&& timestamp_valid(v.expires_at)
}

pub open spec fn fulfill_view_wf(v: FulfillView) -> bool {
    &&& v.fulfillment.len() == 32
    &&& v.data.len() <= MAX_DATA_LEN
}

pub open spec fn reject_view_wf(v: RejectView) -> bool {
    &&& code_is_ascii(v.code)
    &&& (v.triggered_by matches Some(a) ==> is_valid_address(a))
    &&& v.message.len() <= MAX_MESSAGE_LEN
    &&& v.data.len() <= MAX_DATA_LEN
}

pub open spec fn packet_view_wf(p: PacketView) -> bool {
    match p {
        PacketView::Prepare(v) => prepare_view_wf(v),
        PacketView::Fulfill(v) => fulfill_view_wf(v),
        PacketView::Reject(v) => reject_view_wf(v),
    }
}

pub open spec fn prepare_content(v: PrepareView) -> Seq<u8> {
    be_bytes(v.amount as nat, 8) + timestamp_bytes(v.expires_at) + v.execution_condition
        + var_octets(v.destination) + var_octets(v.data)
}

pub open spec fn fulfill_content(v: FulfillView) -> Seq<u8> {
    v.fulfillment + var_octets(v.data)
}

pub open spec fn optional_address_bytes(a: Option<Seq<u8>>) -> Seq<u8> {
    match a {
        Some(s) => s,
        None => Seq::empty(),
    }
}

pub open spec fn reject_content(v: RejectView) -> Seq<u8> {
    code_bytes(v.code) + var_octets(optional_address_bytes(v.triggered_by)) + var_octets(
        v.message,
    ) + var_octets(v.data)
}

/// The wire form of a packet.
pub open spec fn packet_bytes(p: PacketView) -> Seq<u8> {
    match p {
        PacketView::Prepare(v) => seq![PREPARE_TYPE] + var_octets(prepare_content(v)),
        PacketView::Fulfill(v) => seq![FULFILL_TYPE] + var_octets(fulfill_content(v)),
        PacketView::Reject(v) => seq![REJECT_TYPE] + var_octets(reject_content(v)),
    }
}

#[verifier::opaque]
pub open spec fn parse_prepare_content(c: Seq<u8>) -> Option<PrepareView> {
    if c.len() < 57 {
        None
    } else {
        let rest = c.subrange(57, c.len() as int);
        match (parse_timestamp(c.subrange(8, 25)), parse_var_octets(rest)) {
            (Some(t), Some((dest, n1))) => {
                let rest2 = rest.subrange(n1 as int, rest.len() as int);
                match parse_var_octets(rest2) {
                    Some((data, n2)) => if n2 == rest2.len() && is_valid_address(dest)
                        && data.len() <= MAX_DATA_LEN {
                        Some(
                            PrepareView {
                                amount: be_value(c.subrange(0, 8)) as u64,
                                expires_at: t,
                                execution_condition: c.subrange(25, 57),
                                destination: dest,
                                data,
                            },
                        )
                    } else {
                        None
                    },
                    None => None,
                }
            },
            _ => None,
        }
    }
}

#[verifier::opaque]
pub open spec fn parse_fulfill_content(c: Seq<u8>) -> Option<FulfillView> {
    if c.len() < 32 {
        None
    } else {
        let rest = c.subrange(32, c.len() as int);
        match parse_var_octets(rest) {
            Some((data, n)) => if n == rest.len() && data.len() <= MAX_DATA_LEN {
                Some(FulfillView { fulfillment: c.subrange(0, 32), data })
            } else {
                None
            },
            None => None,
        }
    }
}

#[verifier::opaque]
pub open spec fn parse_reject_content(c: Seq<u8>) -> Option<RejectView> {
    if c.len() < 3 {
        None
    } else {
        let code = ErrorCode { class: c[0], digit1: c[1], digit2: c[2] };
        let rest = c.subrange(3, c.len() as int);
        match parse_var_octets(rest) {
            Some((tb, n1)) => {
                let rest2 = rest.subrange(n1 as int, rest.len() as int);
                match parse_var_octets(rest2) {
                    Some((message, n2)) => {
                        let rest3 = rest2.subrange(n2 as int, rest2.len() as int);
                        match parse_var_octets(rest3) {
                            Some((data, n3)) => if n3 == rest3.len() && code_is_ascii(code) && (
                            tb.len() == 0 || is_valid_address(tb)) && message.len()
                                <= MAX_MESSAGE_LEN && data.len() <= MAX_DATA_LEN {
                                Some(
                                    RejectView {
                                        code,
                                        triggered_by: if tb.len() == 0 {
                                            None
                                        } else {
                                            Some(tb)
                                        },
                                        message,
                                        data,
                                    },
                                )
                            } else {
                                None
                            },
                            None => None,
                        }
                    },
                    None => None,
                }
            },
            None => None,
        }
    }
}

/// Reads a whole packet: a known tag, then a content whose length prefix
/// covers exactly the rest of the input.
pub open spec fn parse_packet(s: Seq<u8>) -> Option<PacketView> {
    if s.len() == 0 {
        None
    } else {
        match parse_var_octets(s.subrange(1, s.len() as int)) {
            Some((c, n)) => if n + 1 != s.len() {
                None
            } else if s[0] == PREPARE_TYPE {
                match parse_prepare_content(c) {
                    Some(v) => Some(PacketView::Prepare(v)),
                    None => None,
                }
            } else if s[0] == FULFILL_TYPE {
                match parse_fulfill_content(c) {
                    Some(v) => Some(PacketView::Fulfill(v)),
                    None => None,
                }
            } else if s[0] == REJECT_TYPE {
                match parse_reject_content(c) {
                    Some(v) => Some(PacketView::Reject(v)),
                    None => None,
                }
            } else {
                None
            },
            None => None,
        }
    }
}

proof fn lemma_envelope(tag: u8, c: Seq<u8>)
    requires
        c.len() < 0x1_0000_0000_0000_0000,
    ensures
        ({
            let s = seq![tag] + var_octets(c);
            &&& s.len() > 0
            &&& s[0] == tag
            &&& parse_var_octets(s.subrange(1, s.len() as int)) == Some((c, (s.len() - 1) as nat))
        }),
{
    let s = seq![tag] + var_octets(c);
    assert(s.subrange(1, s.len() as int) =~= var_octets(c) + Seq::<u8>::empty());
    lemma_var_octets_round_trip(c, Seq::empty());
}

proof fn lemma_prepare_content_round_trip(v: PrepareView)
    requires
        prepare_view_wf(v),
    ensures
        parse_prepare_content(prepare_content(v)) == Some(v),
        prepare_content(v).len() < 50000,
{
    reveal(parse_prepare_content);
    let c = prepare_content(v);
    lemma_be_bytes_len(v.amount as nat, 8);
    lemma_pow256_8();
    lemma_be_round_trip(v.amount as nat, 8);
    lemma_timestamp_round_trip(v.expires_at);
    let d1 = var_octets(v.destination);
    let d2 = var_octets(v.data);
    assert(c.subrange(0, 8) =~= be_bytes(v.amount as nat, 8));
    assert(c.subrange(8, 25) =~= timestamp_bytes(v.expires_at));
    assert(c.subrange(25, 57) =~= v.execution_condition);
    let rest = c.subrange(57, c.len() as int);
    assert(rest =~= d1 + d2);
    lemma_var_octets_round_trip(v.destination, d2);
    assert(rest.subrange(d1.len() as int, rest.len() as int) =~= d2 + Seq::<u8>::empty());
    lemma_var_octets_round_trip(v.data, Seq::empty());
}

proof fn lemma_fulfill_content_round_trip(v: FulfillView)
    requires
        fulfill_view_wf(v),
    ensures
        parse_fulfill_content(fulfill_content(v)) == Some(v),
        fulfill_content(v).len() < 50000,
{
    reveal(parse_fulfill_content);
    let c = fulfill_content(v);
    assert(c.subrange(0, 32) =~= v.fulfillment);
    assert(c.subrange(32, c.len() as int) =~= var_octets(v.data) + Seq::<u8>::empty());
    lemma_var_octets_round_trip(v.data, Seq::empty());
}

proof fn lemma_reject_content_round_trip(v: RejectView)
    requires
        reject_view_wf(v),
    ensures
        parse_reject_content(reject_content(v)) == Some(v),
        reject_content(v).len() < 50000,
{
    reveal(parse_reject_content);
    let c = reject_content(v);
    let tb = optional_address_bytes(v.triggered_by);
    let d1 = var_octets(tb);
    let d2 = var_octets(v.message);
    let d3 = var_octets(v.data);
    let rest = c.subrange(3, c.len() as int);
    assert(rest =~= d1 + (d2 + d3));
    lemma_var_octets_round_trip(tb, d2 + d3);
    let rest2 = rest.subrange(d1.len() as int, rest.len() as int);
    assert(rest2 =~= d2 + d3);
    lemma_var_octets_round_trip(v.message, d3);
    let rest3 = rest2.subrange(d2.len() as int, rest2.len() as int);
    assert(rest3 =~= d3 + Seq::<u8>::empty());
    lemma_var_octets_round_trip(v.data, Seq::empty());
    let code = ErrorCode { class: c[0], digit1: c[1], digit2: c[2] };
    assert(code == v.code);
}

proof fn lemma_parse_envelope(s: Seq<u8>, c: Seq<u8>)
    requires
        s.len() > 0,
        parse_var_octets(s.subrange(1, s.len() as int)) == Some((c, (s.len() - 1) as nat)),
    ensures
        s[0] == PREPARE_TYPE ==> parse_packet(s) == match parse_prepare_content(c) {
            Some(v) => Some(PacketView::Prepare(v)),
            None => None,
        },
        s[0] == FULFILL_TYPE ==> parse_packet(s) == match parse_fulfill_content(c) {
            Some(v) => Some(PacketView::Fulfill(v)),
            None => None,
        },
        s[0] == REJECT_TYPE ==> parse_packet(s) == match parse_reject_content(c) {
            Some(v) => Some(PacketView::Reject(v)),
            None => None,
        },
{
}

/// Parsing the wire form of a well-formed packet gives the packet back.
pub proof fn lemma_packet_round_trip(p: PacketView)
    requires
        packet_view_wf(p),
    ensures
        parse_packet(packet_bytes(p)) == Some(p),
{
    match p {
        PacketView::Prepare(v) => {
            lemma_prepare_content_round_trip(v);
            lemma_envelope(PREPARE_TYPE, prepare_content(v));
            lemma_parse_envelope(packet_bytes(p), prepare_content(v));
        },
        PacketView::Fulfill(v) => {
            lemma_fulfill_content_round_trip(v);
            lemma_envelope(FULFILL_TYPE, fulfill_content(v));
            lemma_parse_envelope(packet_bytes(p), fulfill_content(v));
        },
        PacketView::Reject(v) => {
            lemma_reject_content_round_trip(v);
            lemma_envelope(REJECT_TYPE, reject_content(v));
            lemma_parse_envelope(packet_bytes(p), reject_content(v));
        },
    }
}

/// Why bytes are not the packet that was asked for.
#[derive(Clone, Copy, Debug, PartialEq, Eq)]
pub enum ParseError {
    /// A well-formed packet of another type.
    WrongType,
    /// Not a well-formed packet.
    InvalidPacket,
}

#[derive(Clone, Debug, PartialEq, Eq)]
pub struct Prepare {
    pub amount: u64,
    pub expires_at: Timestamp,
    pub execution_condition: Vec<u8>,
    pub destination: Address,
    pub data: Vec<u8>,
}

#[derive(Clone, Debug, PartialEq, Eq)]
pub struct Fulfill {
    pub fulfillment: Vec<u8>,
    pub data: Vec<u8>,
}

#[derive(Clone, Debug, PartialEq, Eq)]
pub struct Reject {
    pub code: ErrorCode,
    pub message: Vec<u8>,
    pub triggered_by: Option<Address>,
    pub data: Vec<u8>,
}

#[derive(Clone, Debug, PartialEq, Eq)]
pub enum Packet {
    Prepare(Prepare),
    Fulfill(Fulfill),
    Reject(Reject),
}

impl View for Prepare {
    type V = PrepareView;

    open spec fn view(&self) -> PrepareView {
        PrepareView {
            amount: self.amount,
            expires_at: self.expires_at,
            execution_condition: self.execution_condition@,
            destination: self.destination@,
            data: self.data@,
        }
    }
}

impl View for Fulfill {
    type V = FulfillView;

    open spec fn view(&self) -> FulfillView {
        FulfillView { fulfillment: self.fulfillment@, data: self.data@ }
    }
}

pub open spec fn optional_address_view(a: Option<Address>) -> Option<Seq<u8>> {
    match a {
        Some(x) => Some(x@),
        None => None,
    }
}

impl View for Reject {
    type V = RejectView;

    open spec fn view(&self) -> RejectView {
        RejectView {
            code: self.code,
            triggered_by: optional_address_view(self.triggered_by),
            message: self.message@,
            data: self.data@,
        }
    }
}

impl View for Packet {
    type V = PacketView;

    open spec fn view(&self) -> PacketView {
        match self {
            Packet::Prepare(p) => PacketView::Prepare(p@),
            Packet::Fulfill(p) => PacketView::Fulfill(p@),
            Packet::Reject(p) => PacketView::Reject(p@),
        }
    }
}

/// Appends all of `s`.
pub fn append(out: &mut Vec<u8>, s: &[u8])
    ensures
        final(out)@ == old(out)@ + s@,
{
    let mut i: usize = 0;
    while i < s.len()
        invariant
            i <= s@.len(),
            out@ == old(out)@ + s@.subrange(0, i as int),
        decreases s.len() - i,
    {
        out.push(s[i]);
        i += 1;
        assert(out@ =~= old(out)@ + s@.subrange(0, i as int));
    }
    assert(s@.subrange(0, s@.len() as int) =~= s@);
}

fn envelope(tag: u8, content: &Vec<u8>) -> (r: Vec<u8>)
    ensures
        r@ == seq![tag] + var_octets(content@),
{
    let mut out: Vec<u8> = Vec::new();
    out.push(tag);
    put_var_octets(&mut out, content.as_slice());
    assert(out@ =~= seq![tag] + var_octets(content@));
    out
}

/// Parses the content that runs from `start` to the end of `buf`.
#[verifier::rlimit(50)]
fn parse_prepare_at(buf: &[u8], start: usize) -> (r: Option<Prepare>)
    requires
        start <= buf@.len(),
    ensures
        match parse_prepare_content(buf@.subrange(start as int, buf@.len() as int)) {
            Some(v) => r matches Some(p) && p@ == v,
            None => r is None,
        },
{
    reveal(parse_prepare_content);
    let n = buf.len();
    let ghost c = buf@.subrange(start as int, n as int);
    if n - start < 57 {
        return None;
    }
    let amount = read_be(buf, start, 8);
    assert(c.subrange(0, 8) =~= buf@.subrange(start as int, start + 8));
    let expires_at = Timestamp::read_from(buf, start + 8);
    assert(c.subrange(8, 25) =~= buf@.subrange(start + 8, start + 25));
    let ghost rest = c.subrange(57, c.len() as int);
    assert(rest =~= buf@.subrange(start + 57, n as int));
    let t = match expires_at {
        Some(t) => t,
        None => return None,
    };
    let (s1, e1) = match read_var_octets(buf, start + 57) {
        Some(x) => x,
        None => return None,
    };
    assert(rest.subrange(e1 - start - 57, rest.len() as int) =~= buf@.subrange(e1 as int, n as int));
    let (s2, e2) = match read_var_octets(buf, e1) {
        Some(x) => x,
        None => return None,
    };
    if e2 != n || e2 - s2 > MAX_DATA_LEN {
        return None;
    }
    let destination = match Address::try_from(copy_bytes(buf, s1, e1)) {
        Ok(a) => a,
        Err(_) => return None,
    };
    let execution_condition = copy_bytes(buf, start + 25, start + 57);
    assert(c.subrange(25, 57) =~= execution_condition@);
    let data = copy_bytes(buf, s2, e2);
    Some(Prepare { amount, expires_at: t, execution_condition, destination, data })
}

fn parse_fulfill_at(buf: &[u8], start: usize) -> (r: Option<Fulfill>)
    requires
        start <= buf@.len(),
    ensures
        match parse_fulfill_content(buf@.subrange(start as int, buf@.len() as int)) {
            Some(v) => r matches Some(p) && p@ == v,
            None => r is None,
        },
{
    reveal(parse_fulfill_content);
    let n = buf.len();
    let ghost c = buf@.subrange(start as int, n as int);
    if n - start < 32 {
        return None;
    }
    assert(c.subrange(32, c.len() as int) =~= buf@.subrange(start + 32, n as int));
    let (s1, e1) = match read_var_octets(buf, start + 32) {
        Some(x) => x,
        None => return None,
    };
    if e1 != n || e1 - s1 > MAX_DATA_LEN {
        return None;
    }
    let fulfillment = copy_bytes(buf, start, start + 32);
    assert(c.subrange(0, 32) =~= fulfillment@);
    let data = copy_bytes(buf, s1, e1);
    Some(Fulfill { fulfillment, data })
}

#[verifier::rlimit(50)]
fn parse_reject_at(buf: &[u8], start: usize) -> (r: Option<Reject>)
    requires
        start <= buf@.len(),
    ensures
        match parse_reject_content(buf@.subrange(start as int, buf@.len() as int)) {
            Some(v) => r matches Some(p) && p@ == v,
            None => r is None,
        },
{
    reveal(parse_reject_content);
    let n = buf.len();
    let ghost c = buf@.subrange(start as int, n as int);
    if n - start < 3 {
        return None;
    }
    let code = ErrorCode { class: buf[start], digit1: buf[start + 1], digit2: buf[start + 2] };
    let ghost rest = c.subrange(3, c.len() as int);
    assert(rest =~= buf@.subrange(start + 3, n as int));
    let (s1, e1) = match read_var_octets(buf, start + 3) {
        Some(x) => x,
        None => return None,
    };
    let ghost rest2 = rest.subrange(e1 - start - 3, rest.len() as int);
    assert(rest2 =~= buf@.subrange(e1 as int, n as int));
    let (s2, e2) = match read_var_octets(buf, e1) {
        Some(x) => x,
        None => return None,
    };
    let ghost rest3 = rest2.subrange(e2 - e1, rest2.len() as int);
    assert(rest3 =~= buf@.subrange(e2 as int, n as int));
    let (s3, e3) = match read_var_octets(buf, e2) {
        Some(x) => x,
        None => return None,
    };
    if e3 != n || code.class >= 128 || code.digit1 >= 128 || code.digit2 >= 128 || e2 - s2
        > MAX_MESSAGE_LEN || e3 - s3 > MAX_DATA_LEN {
        return None;
    }
    let triggered_by = if s1 == e1 {
        None
    } else {
        match Address::try_from(copy_bytes(buf, s1, e1)) {
            Ok(a) => Some(a),
            Err(_) => return None,
        }
    };
    let message = copy_bytes(buf, s2, e2);
    let data = copy_bytes(buf, s3, e3);
    Some(Reject { code, message, triggered_by, data })
}

impl Packet {
    /// Parses a whole packet.
    pub fn try_from(buf: &[u8]) -> (r: Result<Packet, ParseError>)
        ensures
            match parse_packet(buf@) {
                Some(v) => r matches Ok(p) && p@ == v,
                None => r == Err::<Packet, ParseError>(ParseError::InvalidPacket),
            },
    {
        let n = buf.len();
        if n == 0 {
            return Err(ParseError::InvalidPacket);
        }
        let (start, end) = match read_var_octets(buf, 1) {
            Some(x) => x,
            None => return Err(ParseError::InvalidPacket),
        };
        if end != n {
            return Err(ParseError::InvalidPacket);
        }
        assert(buf@.subrange(start as int, end as int) =~= buf@.subrange(start as int, n as int));
        let tag = buf[0];
        if tag == PREPARE_TYPE {
            match parse_prepare_at(buf, start) {
                Some(p) => Ok(Packet::Prepare(p)),
                None => Err(ParseError::InvalidPacket),
            }
        } else if tag == FULFILL_TYPE {
            match parse_fulfill_at(buf, start) {
                Some(p) => Ok(Packet::Fulfill(p)),
                None => Err(ParseError::InvalidPacket),
            }
        } else if tag == REJECT_TYPE {
            match parse_reject_at(buf, start) {
                Some(p) => Ok(Packet::Reject(p)),
                None => Err(ParseError::InvalidPacket),
            }
        } else {
            Err(ParseError::InvalidPacket)
        }
    }

    /// The packet's wire form.
    pub fn to_bytes(&self) -> (r: Vec<u8>)
        requires
            self.wf(),
        ensures
            r@ == packet_bytes(self@),
            packet_view_wf(self@),
    {
        match self {
            Packet::Prepare(p) => p.to_bytes(),
            Packet::Fulfill(p) => p.to_bytes(),
            Packet::Reject(p) => p.to_bytes(),
        }
    }

    pub open spec fn wf(&self) -> bool {
        match self {
            Packet::Prepare(p) => p.wf(),
            Packet::Fulfill(p) => p.wf(),
            Packet::Reject(p) => p.wf(),
        }
    }
}

impl Prepare {
    /// The fields that the type itself does not guarantee.
    pub open spec fn wf(&self) -> bool {
        &&& self.execution_condition@.len() == 32
        &&& self.data@.len() <= MAX_DATA_LEN
        &&& timestamp_valid(self.expires_at)
    }

    /// Parses a whole packet that must be a Prepare.
    pub fn try_from(buf: &[u8]) -> (r: Result<Prepare, ParseError>)
        ensures
            match parse_packet(buf@) {
                Some(PacketView::Prepare(v)) => r matches Ok(p) && p@ == v,
                Some(_) => r == Err::<Prepare, ParseError>(ParseError::WrongType),
                None => r == Err::<Prepare, ParseError>(ParseError::InvalidPacket),
            },
    {
        match Packet::try_from(buf) {
            Ok(Packet::Prepare(p)) => Ok(p),
            Ok(_) => Err(ParseError::WrongType),
            Err(e) => Err(e),
        }
    }

    pub fn to_bytes(&self) -> (r: Vec<u8>)
        requires
            self.wf(),
        ensures
            r@ == packet_bytes(PacketView::Prepare(self@)),
            prepare_view_wf(self@),
    {
        let mut c: Vec<u8> = Vec::new();
        put_be(&mut c, self.amount, 8);
        self.expires_at.write_to(&mut c);
        append(&mut c, self.execution_condition.as_slice());
        put_var_octets(&mut c, self.destination.as_slice());
        put_var_octets(&mut c, self.data.as_slice());
        assert(c@ =~= prepare_content(self@));
        envelope(PREPARE_TYPE, &c)
    }
}

impl Fulfill {
    pub open spec fn wf(&self) -> bool {
        &&& self.fulfillment@.len() == 32
        &&& self.data@.len() <= MAX_DATA_LEN
    }

    /// Parses a whole packet that must be a Fulfill.
    pub fn try_from(buf: &[u8]) -> (r: Result<Fulfill, ParseError>)
        ensures
            match parse_packet(buf@) {
                Some(PacketView::Fulfill(v)) => r matches Ok(p) && p@ == v,
                Some(_) => r == Err::<Fulfill, ParseError>(ParseError::WrongType),
                None => r == Err::<Fulfill, ParseError>(ParseError::InvalidPacket),
            },
    {
        match Packet::try_from(buf) {
            Ok(Packet::Fulfill(p)) => Ok(p),
            Ok(_) => Err(ParseError::WrongType),
            Err(e) => Err(e),
        }
    }

    pub fn to_bytes(&self) -> (r: Vec<u8>)
        requires
            self.wf(),
        ensures
            r@ == packet_bytes(PacketView::Fulfill(self@)),
            fulfill_view_wf(self@),
    {
        let mut c: Vec<u8> = Vec::new();
        append(&mut c, self.fulfillment.as_slice());
        put_var_octets(&mut c, self.data.as_slice());
        assert(c@ =~= fulfill_content(self@));
        envelope(FULFILL_TYPE, &c)
    }
}

impl Reject {
    pub open spec fn wf(&self) -> bool {
        &&& code_is_ascii(self.code)
        &&& self.message@.len() <= MAX_MESSAGE_LEN
        &&& self.data@.len() <= MAX_DATA_LEN
    }

    /// Parses a whole packet that must be a Reject.
    pub fn try_from(buf: &[u8]) -> (r: Result<Reject, ParseError>)
        ensures
            match parse_packet(buf@) {
                Some(PacketView::Reject(v)) => r matches Ok(p) && p@ == v,
                Some(_) => r == Err::<Reject, ParseError>(ParseError::WrongType),
                None => r == Err::<Reject, ParseError>(ParseError::InvalidPacket),
            },
    {
        match Packet::try_from(buf) {
            Ok(Packet::Reject(p)) => Ok(p),
            Ok(_) => Err(ParseError::WrongType),
            Err(e) => Err(e),
        }
    }

    pub fn to_bytes(&self) -> (r: Vec<u8>)
        requires
            self.wf(),
        ensures
            r@ == packet_bytes(PacketView::Reject(self@)),
            reject_view_wf(self@),
    {
        let mut c: Vec<u8> = Vec::new();
        append(&mut c, self.code.to_bytes().as_slice());
        match &self.triggered_by {
            Some(a) => put_var_octets(&mut c, a.as_slice()),
            None => {
                let empty: Vec<u8> = Vec::new();
                put_var_octets(&mut c, empty.as_slice());
            },
        }
        put_var_octets(&mut c, self.message.as_slice());
        put_var_octets(&mut c, self.data.as_slice());
        assert(c@ =~= reject_content(self@));
        envelope(REJECT_TYPE, &c)
    }
}

} // verus!
