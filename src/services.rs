//! The packet pipeline: what each stage decides about a Prepare, and the
//! Rejects it makes. Rejects made here are triggered by the connector.

use vstd::prelude::*;
use vstd::string::StringSliceAdditionalSpecFns;
use crate::address::{
    Address, bytes_equal, copy_bytes, is_valid_address, is_valid_segment, join_address,
    validate_address_segment,
};
use crate::auth::AuthToken;
use crate::clock::{MIN_UNIX_SECONDS, lemma_unix_seconds_bounds, unix_seconds};
use crate::ildcp::{
    Response, ResponseView, ildcp_destination, ildcp_destination_bytes, parse_response,
    peer_protocol_fulfillment, response_data, lemma_response_round_trip,
};
use crate::oer::{lemma_var_octets_round_trip, parse_var_octets, read_var_octets, var_octets};
use crate::packet::{
    ErrorCode, Fulfill, FulfillView, PacketView, Prepare, PrepareView, Reject, make_code,
    packet_bytes, prepare_view_wf,
};
use crate::peers::{ConnectorPeer, Relation, find_peer, peer_accepts};
use crate::routing::{
    RouteIndex, RoutingError, RoutingTable, endpoint_of, hop_auth, resolution,
};
use crate::telemetry::{Logger, RowData, some_ready, wrote_row};
use crate::timestamp::{Timestamp, timestamp_valid};

verus! {

/// A copy of the bytes of `s`.
pub fn text(s: &str) -> (r: Vec<u8>)
    ensures
        r@ == s.spec_bytes(),
{
    let b = s.as_bytes();
    let r = copy_bytes(b, 0, b.len());
    assert(r@ =~= b@);
    r
}

/// A Reject that the connector at `address` makes.
pub fn make_reject(code: ErrorCode, message: &str, address: &Address) -> (r: Reject)
    ensures
        r.code == code,
        r.message@ == message.spec_bytes(),
        r.triggered_by matches Some(a) && a@ == address@,
        r.data@.len() == 0,
{
    Reject { code, message: text(message), triggered_by: Some(address.clone()), data: Vec::new() }
}

/// The Reject is the connector's own, with this code and message.
pub open spec fn is_local_reject(j: Reject, code: ErrorCode, message: Seq<u8>, address: Seq<u8>) -> bool {
    &&& j.code == code
    &&& j.message@ == message
    &&& j.triggered_by matches Some(a) && a@ == address
    &&& j.data@.len() == 0
}

// ---------------------------------------------------------------- expiry

/// A Prepare's allowed time, in milliseconds, if it has not expired:
/// `min(max_timeout, expires_at - now)`.
pub open spec fn expiry_timeout(expires_ms: int, now_ms: int, max_timeout: int) -> Option<int> {
    if expires_ms <= now_ms {
        None
    } else if expires_ms - now_ms < max_timeout {
        Some(expires_ms - now_ms)
    } else {
        Some(max_timeout)
    }
}

pub const DEFAULT_MAX_TIMEOUT: u64 = 60000;

/// Rejects expired Prepares and bounds how long the rest of the pipeline may
/// take.
#[derive(Debug)]
pub struct ExpiryService {
    pub address: Address,
    /// In milliseconds.
    pub max_timeout: u64,
}

/// The time a Prepare expiring at `expires_ms` has left at `now_ms`, capped
/// at `max_timeout`; nothing once it has expired.
pub fn time_left(expires_ms: i64, now_ms: i64, max_timeout: u64) -> (r: Option<u64>)
    ensures
        match expiry_timeout(expires_ms as int, now_ms as int, max_timeout as int) {
            Some(t) => r == Some(t as u64),
            None => r is None,
        },
{
    if expires_ms <= now_ms {
        None
    } else {
        let left = (expires_ms as i128 - now_ms as i128) as u128;
        if left < max_timeout as u128 {
            Some(left as u64)
        } else {
            Some(max_timeout)
        }
    }
}

impl ExpiryService {
    pub fn new(address: Address, max_timeout: u64) -> (r: ExpiryService)
        ensures
            r.address@ == address@,
            r.max_timeout == max_timeout,
    {
        ExpiryService { address, max_timeout }
    }

    /// How long the rest of the pipeline may take for this Prepare at
    /// `now_ms` (milliseconds since the Unix epoch), or `R02` when it has
    /// already expired (or its time cannot be placed).
    pub fn check(&self, expires_at: &Timestamp, now_ms: i64) -> (r: Result<u64, Reject>)
        ensures
            match r {
                Ok(t) => expiry_timeout(unix_seconds(*expires_at) * 1000, now_ms as int, self.max_timeout as int)
                    == Some(t as int),
                Err(j) => is_local_reject(j, make_code('R', '0', '2'), "insufficient timeout".spec_bytes(), self.address@),
            },
            timestamp_valid(*expires_at) ==> (r is Ok <==> expiry_timeout(
                unix_seconds(*expires_at) * 1000,
                now_ms as int,
                self.max_timeout as int,
            ) is Some),
    {
        proof {
            if timestamp_valid(*expires_at) {
                lemma_unix_seconds_bounds(*expires_at);
            }
        }
        let secs = match expires_at.to_unix_seconds() {
            Some(s) => s,
            None => return Err(make_reject(ErrorCode::r02_insufficient_timeout(), "insufficient timeout", &self.address)),
        };
        if secs > i64::MAX / 1000 || secs < i64::MIN / 1000 {
            return Err(make_reject(ErrorCode::r02_insufficient_timeout(), "insufficient timeout", &self.address));
        }
        match time_left(secs * 1000, now_ms, self.max_timeout) {
            Some(t) => Ok(t),
            None => Err(make_reject(ErrorCode::r02_insufficient_timeout(), "insufficient timeout", &self.address)),
        }
    }

    /// The Reject for a Prepare whose time ran out downstream.
    pub fn timed_out(&self) -> (r: Reject)
        ensures
            is_local_reject(r, make_code('R', '0', '0'), "request timed out".spec_bytes(), self.address@),
    {
        make_reject(ErrorCode::r00_transfer_timed_out(), "request timed out", &self.address)
    }
}

// ---------------------------------------------------------------- from peer

/// Attributes requests to the configured peer whose token they carry.
#[derive(Debug)]
pub struct FromPeerService {
    pub address: Address,
    pub peers: Vec<ConnectorPeer>,
}

impl FromPeerService {
    pub fn new(address: Address, peers: Vec<ConnectorPeer>) -> (r: FromPeerService)
        ensures
            r.address@ == address@,
            r.peers@ == peers@,
    {
        FromPeerService { address, peers }
    }

    /// The index of the first peer that the `Authorization` value names, or
    /// `F00` when none does.
    pub fn identify(&self, authorization: Option<&[u8]>) -> (r: Result<usize, Reject>)
        ensures
            match r {
                Ok(i) => authorization matches Some(h) && i < self.peers@.len() && peer_accepts(
                    self.peers@[i as int],
                    h@,
                ) && forall|j: int| 0 <= j < i ==> !peer_accepts(#[trigger] self.peers@[j], h@),
                Err(j) => is_local_reject(j, make_code('F', '0', '0'), "could not determine packet source".spec_bytes(), self.address@)
                    && (authorization matches Some(h) ==> forall|k: int|
                    0 <= k < self.peers@.len() ==> !peer_accepts(#[trigger] self.peers@[k], h@)),
            },
    {
        match find_peer(&self.peers, authorization) {
            Some(i) => Ok(i),
            None => Err(make_reject(ErrorCode::f00_bad_request(), "could not determine packet source", &self.address)),
        }
    }
}

// ---------------------------------------------------------------- ILDCP

/// Answers ILDCP requests from children; other Prepares pass on.
#[derive(Debug)]
pub struct ConfigService {
    pub config: Response,
}

#[derive(Debug, PartialEq, Eq)]
pub enum ConfigOutcome {
    /// Not an ILDCP request: hand it to the next stage.
    Pass,
    Fulfill(Fulfill),
    Reject(Reject),
}

impl ConfigService {
    pub fn new(config: Response) -> (r: ConfigService)
        ensures
            r.config@ == config@,
    {
        ConfigService { config }
    }

    /// The child at `from_address` asked under the name `peer_name`: its
    /// address is `from_address ⧺ "." ⧺ peer_name`, with the connector's asset.
    pub fn handle(
        &self,
        prepare: &Prepare,
        from_relation: Relation,
        from_address: &Address,
        peer_name: Option<&[u8]>,
    ) -> (r: ConfigOutcome)
        ensures
            prepare@.destination != ildcp_destination() ==> r is Pass,
            prepare@.destination == ildcp_destination() ==> {
                let me = self.config@.client_address;
                if from_relation != Relation::Child {
                    r matches ConfigOutcome::Reject(j) && is_local_reject(j, make_code('F', '0', '0'), "ILDCP request from non-child peer".spec_bytes(), me)
                } else if peer_name is None {
                    r matches ConfigOutcome::Reject(j) && is_local_reject(j, make_code('F', '0', '0'), "Missing ILP-Peer-Name header".spec_bytes(), me)
                } else {
                    let name = peer_name.unwrap()@;
                    let client = join_address(from_address@, name);
                    if !is_valid_segment(name) || !is_valid_address(client) {
                        r matches ConfigOutcome::Reject(j) && is_local_reject(j, make_code('F', '0', '0'), "Invalid generated client address".spec_bytes(), me)
                    } else {
                        r matches ConfigOutcome::Fulfill(f) && f@ == (FulfillView {
                            fulfillment: peer_protocol_fulfillment(),
                            data: response_data(ResponseView {
                                client_address: client,
                                asset_scale: self.config.asset_scale,
                                asset_code: self.config.asset_code@,
                            }),
                        })
                    }
                }
            },
    {
        let dest = ildcp_destination_bytes();
        if !bytes_equal(prepare.destination.as_slice(), dest.as_slice()) {
            return ConfigOutcome::Pass;
        }
        let me = &self.config.client_address;
        if from_relation != Relation::Child {
            return ConfigOutcome::Reject(make_reject(ErrorCode::f00_bad_request(), "ILDCP request from non-child peer", me));
        }
        let name = match peer_name {
            Some(n) => n,
            None => return ConfigOutcome::Reject(make_reject(ErrorCode::f00_bad_request(), "Missing ILP-Peer-Name header", me)),
        };
        if !validate_address_segment(name) {
            return ConfigOutcome::Reject(make_reject(ErrorCode::f00_bad_request(), "Invalid generated client address", me));
        }
        let client_address = match from_address.with_suffix(name) {
            Ok(a) => a,
            Err(_) => return ConfigOutcome::Reject(make_reject(ErrorCode::f00_bad_request(), "Invalid generated client address", me)),
        };
        let asset_code = copy_bytes(self.config.asset_code.as_slice(), 0, self.config.asset_code.len());
        assert(asset_code@ =~= self.config.asset_code@);
        let response = Response { client_address, asset_scale: self.config.asset_scale, asset_code };
        ConfigOutcome::Fulfill(response.to_fulfill())
    }
}

/// The address an ILDCP response gives a child is its peer's address with
/// one more segment, the name the child asked under; reading the Fulfill
/// back gives that address.
pub proof fn lemma_ildcp_client_address(from: Seq<u8>, name: Seq<u8>, scale: u8, code: Seq<u8>)
    requires
        is_valid_address(from),
        is_valid_segment(name),
        is_valid_address(join_address(from, name)),
        code.len() < 0x1_0000_0000_0000_0000,
    ensures
        ({
            let client = join_address(from, name);
            &&& parse_response(FulfillView {
                fulfillment: peer_protocol_fulfillment(),
                data: response_data(ResponseView { client_address: client, asset_scale: scale, asset_code: code }),
            }) == Some(ResponseView { client_address: client, asset_scale: scale, asset_code: code })
            &&& client.subrange(0, from.len() as int) == from
            &&& client[from.len() as int] == 46u8
            &&& client.subrange(from.len() as int + 1, client.len() as int) == name
            &&& forall|i: int| from.len() < i < client.len() ==> #[trigger] client[i] != 46u8
        }),
{
    let client = join_address(from, name);
    lemma_response_round_trip(ResponseView { client_address: client, asset_scale: scale, asset_code: code });
    assert(client.subrange(0, from.len() as int) =~= from);
    assert(client.subrange(from.len() as int + 1, client.len() as int) =~= name);
    assert forall|i: int| from.len() < i < client.len() implies #[trigger] client[i] != 46u8 by {
        assert(client[i] == name[i - from.len() - 1]);
    }
}

// ---------------------------------------------------------------- echo

/// `ECHOECHOECHOECHO` followed by `tail`.
pub open spec fn echo_magic(tail: u8) -> Seq<u8> {
    seq![69u8, 67u8, 72u8, 79u8, 69u8, 67u8, 72u8, 79u8, 69u8, 67u8, 72u8, 79u8, 69u8, 67u8, 72u8, 79u8, tail]
}

/// The data of an echo request from `source`.
pub open spec fn echo_request_data(source: Seq<u8>) -> Seq<u8> {
    echo_magic(0) + var_octets(source)
}

/// The source address of an echo request: the request magic, then the
/// address as an octet string (anything after it is ignored).
pub open spec fn parse_echo_request(data: Seq<u8>) -> Option<Seq<u8>> {
    if data.len() < 17 || data.subrange(0, 17) != echo_magic(0) {
        None
    } else {
        match parse_var_octets(data.subrange(17, data.len() as int)) {
            Some((a, _)) => if is_valid_address(a) {
                Some(a)
            } else {
                None
            },
            None => None,
        }
    }
}

fn echo_magic_bytes(tail: u8) -> (r: Vec<u8>)
    ensures
        r@ == echo_magic(tail),
{
    let v: Vec<u8> = vec![69u8, 67u8, 72u8, 79u8, 69u8, 67u8, 72u8, 79u8, 69u8, 67u8, 72u8, 79u8, 69u8, 67u8, 72u8, 79u8, tail];
    assert(v@ =~= echo_magic(tail));
    v
}

/// Reads the source address of an echo request.
pub fn deserialize_echo_request(data: &[u8]) -> (r: Option<Address>)
    ensures
        match parse_echo_request(data@) {
            Some(a) => r matches Some(x) && x@ == a,
            None => r is None,
        },
{
    let magic = echo_magic_bytes(0);
    if data.len() < 17 {
        return None;
    }
    let head = copy_bytes(data, 0, 17);
    if !bytes_equal(head.as_slice(), magic.as_slice()) {
        return None;
    }
    match read_var_octets(data, 17) {
        Some((s, e)) => match Address::try_from(copy_bytes(data, s, e)) {
            Ok(a) => Some(a),
            Err(_) => None,
        },
        None => None,
    }
}

/// The request data written for a valid source reads back as that source.
pub proof fn lemma_echo_request_round_trip(source: Seq<u8>, rest: Seq<u8>)
    requires
        is_valid_address(source),
    ensures
        parse_echo_request(echo_request_data(source) + rest) == Some(source),
{
    let d = echo_request_data(source) + rest;
    assert(d.subrange(0, 17) =~= echo_magic(0));
    assert(d.subrange(17, d.len() as int) =~= var_octets(source) + rest);
    lemma_var_octets_round_trip(source, rest);
}

/// Answers echo requests addressed to the connector by sending the echo
/// response back to their source.
#[derive(Debug)]
pub struct EchoService {
    pub address: Address,
}

#[derive(Debug, PartialEq, Eq)]
pub enum EchoOutcome {
    /// The Prepare to hand to the next stage.
    Forward(Prepare),
    Reject(Reject),
}

impl EchoService {
    pub fn new(address: Address) -> (r: EchoService)
        ensures
            r.address@ == address@,
    {
        EchoService { address }
    }

    /// Passes on a Prepare to another address; turns an echo request into
    /// the Prepare that carries the response to its source, one second
    /// sooner to expire; rejects a malformed one with `F01`.
    pub fn handle(&self, prepare: Prepare) -> (r: EchoOutcome)
        ensures
            prepare@.destination != self.address@ ==> (r matches EchoOutcome::Forward(p) && p@ == prepare@),
            prepare@.destination == self.address@ ==> match parse_echo_request(prepare@.data) {
                None => r matches EchoOutcome::Reject(j) && is_local_reject(j, make_code('F', '0', '1'), "invalid echo request".spec_bytes(), self.address@),
                Some(source) => match r {
                    EchoOutcome::Forward(p) => {
                        &&& p.amount == prepare.amount
                        &&& p@.execution_condition == prepare@.execution_condition
                        &&& p@.destination == source
                        &&& p@.data == echo_magic(1)
                        &&& timestamp_valid(p.expires_at)
                        &&& unix_seconds(p.expires_at) == unix_seconds(prepare.expires_at) - 1
                    },
                    EchoOutcome::Reject(j) => is_local_reject(j, make_code('F', '0', '1'), "invalid echo request".spec_bytes(), self.address@),
                },
            },
            prepare@.destination == self.address@ && parse_echo_request(prepare@.data) is Some
                && timestamp_valid(prepare.expires_at) && unix_seconds(prepare.expires_at) - 1
                >= MIN_UNIX_SECONDS ==> r matches EchoOutcome::Forward(_),
    {
        if !self.address.equals(&prepare.destination) {
            return EchoOutcome::Forward(prepare);
        }
        let source = match deserialize_echo_request(prepare.data.as_slice()) {
            Some(a) => a,
            None => return EchoOutcome::Reject(make_reject(ErrorCode::f01_invalid_packet(), "invalid echo request", &self.address)),
        };
        let expires_at = match prepare.expires_at.seconds_earlier(1) {
            Some(t) => t,
            None => return EchoOutcome::Reject(make_reject(ErrorCode::f01_invalid_packet(), "invalid echo request", &self.address)),
        };
        EchoOutcome::Forward(Prepare {
            amount: prepare.amount,
            expires_at,
            execution_condition: prepare.execution_condition,
            destination: source,
            data: echo_magic_bytes(1),
        })
    }
}

// ---------------------------------------------------------------- debug

/// The Reject codes logged as warnings rather than at debug level.
pub open spec fn is_warning_code(c: ErrorCode) -> bool {
    ||| c == make_code('F', '0', '1')
    ||| c == make_code('F', '0', '2')
    ||| c == make_code('F', '0', '5')
    ||| c == make_code('F', '0', '6')
    ||| c == make_code('F', '0', '7')
    ||| c == make_code('T', '0', '3')
    ||| c == make_code('T', '0', '5')
    ||| c == make_code('R', '0', '0')
    ||| c == make_code('R', '0', '1')
    ||| c == make_code('R', '0', '2')
}

/// Whether a Reject with this code is logged as a warning.
pub fn logs_as_warning(c: ErrorCode) -> (r: bool)
    ensures
        r == is_warning_code(c),
{
    if c.class == 70 {
        c.digit1 == 48 && (c.digit2 == 49 || c.digit2 == 50 || c.digit2 == 53 || c.digit2 == 54
            || c.digit2 == 55)
    } else if c.class == 84 {
        c.digit1 == 48 && (c.digit2 == 51 || c.digit2 == 53)
    } else if c.class == 82 {
        c.digit1 == 48 && (c.digit2 == 48 || c.digit2 == 49 || c.digit2 == 50)
    } else {
        false
    }
}

/// Which packets the debug stage logs.
#[derive(Clone, Copy, Debug, PartialEq, Eq)]
pub struct DebugServiceOptions {
    pub log_prepare: bool,
    pub log_fulfill: bool,
    pub log_reject: bool,
}

impl Default for DebugServiceOptions {
    fn default() -> (r: DebugServiceOptions)
        ensures
            !r.log_prepare && !r.log_fulfill && !r.log_reject,
    {
        DebugServiceOptions { log_prepare: false, log_fulfill: false, log_reject: false }
    }
}

// ---------------------------------------------------------------- telemetry

/// The index of the last dot of `d`, or -1 without one.
pub open spec fn last_dot(d: Seq<u8>) -> int
    decreases d.len(),
{
    if d.len() == 0 {
        -1
    } else if d.last() == 46u8 {
        d.len() - 1
    } else {
        last_dot(d.drop_last())
    }
}

/// A destination without its last segment, the tag a STREAM connection
/// appends; an address of one segment stays whole.
pub open spec fn without_connection_tag(d: Seq<u8>) -> Seq<u8> {
    if last_dot(d) < 0 {
        d
    } else {
        d.subrange(0, last_dot(d))
    }
}

proof fn lemma_last_dot_bound(d: Seq<u8>)
    ensures
        -1 <= last_dot(d) < d.len(),
    decreases d.len(),
{
    if d.len() > 0 {
        lemma_last_dot_bound(d.drop_last());
    }
}

/// The destination as the telemetry record holds it.
pub fn strip_connection_tag(destination: &[u8]) -> (r: Vec<u8>)
    ensures
        r@ == without_connection_tag(destination@),
{
    let n = destination.len();
    let mut i: usize = n;
    assert(destination@.subrange(0, n as int) =~= destination@);
    while i > 0 && destination[i - 1] != 46
        invariant
            i <= n,
            n == destination@.len(),
            last_dot(destination@) == last_dot(destination@.subrange(0, i as int)),
        decreases i,
    {
        assert(destination@.subrange(0, i as int).drop_last() =~= destination@.subrange(0, i - 1));
        i -= 1;
    }
    proof {
        lemma_last_dot_bound(destination@);
    }
    if i == 0 {
        let r = copy_bytes(destination, 0, n);
        assert(r@ =~= destination@);
        r
    } else {
        copy_bytes(destination, 0, i - 1)
    }
}

impl RowData {
    /// The record of a fulfilled Prepare from `account`, fulfilled at
    /// `fulfill_time` (milliseconds since the Unix epoch).
    pub fn new(account: &String, prepare: &Prepare, fulfill_time: i64) -> (r: RowData)
        ensures
            r.account@ == account@,
            r.destination@ == without_connection_tag(prepare@.destination),
            r.amount == prepare.amount,
            r.fulfill_time == fulfill_time,
    {
        RowData {
            account: account.clone(),
            destination: strip_connection_tag(prepare.destination.as_slice()),
            amount: prepare.amount,
            fulfill_time,
        }
    }
}

/// The telemetry stage: rejects Prepares while the sink cannot take a
/// record, and records each fulfilled Prepare.
#[derive(Debug)]
pub struct TelemetryService {
    pub address: Address,
    pub logger: Logger<RowData>,
}

impl TelemetryService {
    pub fn new(address: Address, logger: Logger<RowData>) -> (r: TelemetryService)
        ensures
            r.address@ == address@,
            r.logger == logger,
    {
        TelemetryService { address, logger }
    }

    /// Before forwarding: `T03` when there is a sink and none of its
    /// sub-queues is ready.
    pub fn check_available(&self) -> (r: Option<Reject>)
        ensures
            r is Some <==> (self.logger.queues@.len() > 0 && !some_ready(self.logger.queues@)),
            r matches Some(j) ==> is_local_reject(j, make_code('T', '0', '3'), "backend is unavailable".spec_bytes(), self.address@),
    {
        if self.logger.is_available() {
            None
        } else {
            Some(make_reject(ErrorCode::t03_connector_busy(), "backend is unavailable", &self.address))
        }
    }

    /// After forwarding: writes `row` to the sink when the answer is a
    /// Fulfill, and nothing otherwise. Hands out the batch the row filled.
    pub fn record(&mut self, row: RowData, response: &Result<Fulfill, Reject>) -> (r: Option<(usize, Vec<RowData>)>)
        ensures
            final(self).address == old(self).address,
            response is Err ==> r is None && final(self).logger == old(self).logger,
            response is Ok ==> {
                let (q0, o0) = (old(self).logger.queues@, old(self).logger.overflow@);
                let (q1, o1) = (final(self).logger.queues@, final(self).logger.overflow@);
                &&& q0.len() == 0 ==> r is None && o1 == o0 && q1 == q0
                &&& q0.len() > 0 && !some_ready(q0) ==> r is None && o1 == o0.push(row) && q1 == q0
                &&& q0.len() > 0 && some_ready(q0) ==> o1 == o0 && wrote_row(q0, q1, row, r)
            },
    {
        match response {
            Ok(_) => self.logger.write(row),
            Err(_) => None,
        }
    }
}

// ---------------------------------------------------------------- router

/// Whether an outcome counts as a success for the route's health: all but a
/// `T01` that this connector itself declared.
pub open spec fn outcome_is_ok(address: Seq<u8>, response: Result<Fulfill, Reject>) -> bool {
    match response {
        Ok(_) => true,
        Err(j) => !(j.code == make_code('T', '0', '1') && (j.triggered_by matches Some(a) && a@ == address)),
    }
}

pub fn response_is_ok(address: &Address, response: &Result<Fulfill, Reject>) -> (r: bool)
    ensures
        r == outcome_is_ok(address@, *response),
{
    match response {
        Ok(_) => true,
        Err(j) => {
            let t01 = ErrorCode::t01_peer_unreachable();
            let mine = match &j.triggered_by {
                Some(a) => a.equals(address),
                None => false,
            };
            !(j.code.equals(&t01) && mine)
        },
    }
}

/// Where and how to send a Prepare.
#[derive(Debug, PartialEq, Eq)]
pub struct Dispatch {
    pub index: RouteIndex,
    pub uri: Vec<u8>,
    pub auth: Option<AuthToken>,
    /// The Prepare's wire form.
    pub body: Vec<u8>,
    /// Whether the route's health is tracked.
    pub has_failover: bool,
}

#[derive(Debug, PartialEq, Eq)]
pub enum Forward {
    Send(Dispatch),
    Reject(Reject),
}

/// Sends each Prepare over the route that the table resolves for it.
#[derive(Debug)]
pub struct RouterService {
    pub address: Address,
    pub routes: RoutingTable,
}

impl RouterService {
    pub fn new(address: Address, routes: RoutingTable) -> (r: RouterService)
        ensures
            r.address@ == address@,
            r.routes == routes,
    {
        RouterService { address, routes }
    }

    /// Replaces the routing table.
    pub fn set_routes(&mut self, routes: RoutingTable)
        ensures
            final(self).address == old(self).address,
            final(self).routes == routes,
    {
        self.routes = routes;
    }

    /// Where a Prepare goes at `now`, or the Reject that answers it.
    pub fn forward(&self, prepare: &Prepare, now: u64) -> (r: Forward)
        requires
            self.routes.wf(),
            prepare.wf(),
        ensures
            match resolution(self.routes.groups@, self.routes.partition_by, prepare@, now) {
                Err(RoutingError::NoRoute) => r matches Forward::Reject(j) && is_local_reject(j, make_code('F', '0', '2'), "no route exists".spec_bytes(), self.address@),
                Err(RoutingError::NoHealthyRoute) => r matches Forward::Reject(j) && is_local_reject(j, make_code('T', '0', '1'), "no healthy route found".spec_bytes(), self.address@),
                Ok((gi, ri)) => {
                    let route = self.routes.groups@[gi].routes@[ri].config;
                    match endpoint_of(route, prepare@.destination) {
                        None => r matches Forward::Reject(j) && is_local_reject(j, make_code('F', '0', '2'), "invalid address segment".spec_bytes(), self.address@),
                        Some(uri) => r matches Forward::Send(d) && {
                            &&& d.index == RouteIndex { group_index: gi as usize, route_index: ri as usize }
                            &&& d.uri@ == uri
                            &&& d.body@ == packet_bytes(PacketView::Prepare(prepare@))
                            &&& d.has_failover == route.failover is Some
                            &&& match (d.auth, hop_auth(route.next_hop)) {
                                (Some(t), Some(a)) => t@ == a@,
                                (None, None) => true,
                                _ => false,
                            }
                        },
                    }
                },
            },
    {
        proof {
            crate::routing::lemma_resolution_in_range(self.routes.groups@, self.routes.partition_by, prepare@, now);
        }
        let group_count = self.routes.groups.len();
        assert(group_count == self.routes.groups@.len());
        let index = match self.routes.resolve(prepare, now) {
            Ok(i) => i,
            Err(RoutingError::NoRoute) => return Forward::Reject(make_reject(ErrorCode::f02_unreachable(), "no route exists", &self.address)),
            Err(RoutingError::NoHealthyRoute) => return Forward::Reject(make_reject(ErrorCode::t01_peer_unreachable(), "no healthy route found", &self.address)),
        };
        let route = self.routes.route(index);
        let uri = match route.config.endpoint(prepare.destination.as_slice()) {
            Ok(u) => u,
            Err(_) => return Forward::Reject(make_reject(ErrorCode::f02_unreachable(), "invalid address segment", &self.address)),
        };
        let auth = match route.config.auth() {
            Some(t) => Some(t.clone()),
            None => None,
        };
        let has_failover = route.config.failover.is_some();
        Forward::Send(Dispatch { index, uri, auth, body: prepare.to_bytes(), has_failover })
    }

    /// Accounts for the outcome of a dispatch in its route's health.
    pub fn observe(&mut self, dispatch: &Dispatch, response: &Result<Fulfill, Reject>, now: u64)
        requires
            dispatch.index.group_index < old(self).routes.groups@.len(),
            dispatch.index.route_index < old(self).routes.groups@[dispatch.index.group_index as int].routes@.len(),
        ensures
            final(self).address == old(self).address,
            final(self).routes.wf() == old(self).routes.wf(),
            !dispatch.has_failover ==> final(self).routes == old(self).routes,
            dispatch.has_failover ==> {
                let g0 = old(self).routes.groups@[dispatch.index.group_index as int];
                let g1 = final(self).routes.groups@[dispatch.index.group_index as int];
                let r0 = g0.routes@[dispatch.index.route_index as int];
                &&& g1.routes@[dispatch.index.route_index as int].status == crate::health::next_status(
                    r0.status,
                    r0.config.failover,
                    outcome_is_ok(old(self).address@, *response),
                    now,
                )
                &&& g1.routes@.len() == g0.routes@.len()
                &&& final(self).routes.groups@.len() == old(self).routes.groups@.len()
                &&& final(self).routes.partition_by == old(self).routes.partition_by
                &&& g1.target_prefix == g0.target_prefix
                &&& g1.routes@[dispatch.index.route_index as int].config == r0.config
                &&& forall|a: int| 0 <= a < final(self).routes.groups@.len() && a != dispatch.index.group_index
                    ==> #[trigger] final(self).routes.groups@[a] == old(self).routes.groups@[a]
                &&& forall|b: int| 0 <= b < g1.routes@.len() && b != dispatch.index.route_index
                    ==> #[trigger] g1.routes@[b] == g0.routes@[b]
            },
    {
        if dispatch.has_failover {
            let ok = response_is_ok(&self.address, response);
            self.routes.update(dispatch.index, ok, now);
        }
    }
}

} // verus!
