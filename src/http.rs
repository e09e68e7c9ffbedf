//! What the HTTP edges decide: the ingress filters in front of the
//! pipeline, the bounded request body, and how a peer's HTTP response becomes
//! a Fulfill or a Reject.

use vstd::prelude::*;
use vstd::string::StringSliceAdditionalSpecFns;
use crate::address::{Address, bytes_equal};
use crate::auth::{AuthTokenFilter, has_token, is_header_value, is_header_value_bytes, strip_bearer};
use crate::packet::{
    Fulfill, Packet, PacketView, Prepare, Reject, make_code, packet_bytes, parse_packet,
};
use crate::services::{is_local_reject, make_reject};
use crate::packet::ErrorCode;

verus! {

/// The largest request body: a Prepare with the longest address and data.
pub const MAX_REQUEST_SIZE: usize = 1 + 8 + 8 + 13 + 32 + 8 + 1024 + 8 + 32768;

/// The largest response body: a Reject with the longest fields.
pub const MAX_RESPONSE_SIZE: usize = 1 + 8 + 3 + 8 + 1024 + 8 + 8192 + 8 + 32768;

#[derive(Clone, Copy, Debug, PartialEq, Eq, Structural)]
pub enum HttpMethod {
    Get,
    Post,
    Other,
}

// ---------------------------------------------------------------- ingress

/// Answers every `GET` with 200 `OK`.
#[derive(Clone, Copy, Debug)]
pub struct HealthCheckFilter {}

impl HealthCheckFilter {
    pub fn new() -> (r: HealthCheckFilter) {
        HealthCheckFilter {}
    }

    /// Whether the filter answers the request itself.
    pub fn answers(&self, method: HttpMethod) -> (r: bool)
        ensures
            r == (method == HttpMethod::Get),
    {
        method == HttpMethod::Get
    }
}

/// Lets one method through; the others get 405.
#[derive(Clone, Copy, Debug)]
pub struct MethodFilter {
    pub method: HttpMethod,
}

impl MethodFilter {
    pub fn new(method: HttpMethod) -> (r: MethodFilter)
        ensures
            r.method == method,
    {
        MethodFilter { method }
    }

    pub fn allows(&self, method: HttpMethod) -> (r: bool)
        ensures
            r == (method == self.method),
    {
        method == self.method
    }
}

/// What the pre-stop filter does with a request.
#[derive(Clone, Copy, Debug, PartialEq, Eq, Structural)]
pub enum PreStopAction {
    /// Hand the request on.
    Pass,
    /// Drain the sink, then answer 200.
    Stop,
    /// Answer 503: the relay is stopping.
    Unavailable,
}

/// Once a `GET` of the pre-stop path has come, every other request gets
/// 503.
#[derive(Debug)]
pub struct PreStopFilter {
    pub path: Option<Vec<u8>>,
    pub stopping: bool,
}

impl PreStopFilter {
    pub fn new(path: Option<Vec<u8>>) -> (r: PreStopFilter)
        ensures
            r.path == path,
            !r.stopping,
    {
        PreStopFilter { path, stopping: false }
    }

    /// Decides on a request, and marks the relay stopping on a pre-stop
    /// `GET` (again and again alike).
    pub fn decide(&mut self, method: HttpMethod, path: &[u8]) -> (r: PreStopAction)
        ensures
            final(self).path == old(self).path,
            ({
                let is_pre_stop = method == HttpMethod::Get && (old(self).path matches Some(p) && p@ == path@);
                &&& is_pre_stop ==> r == PreStopAction::Stop && final(self).stopping
                &&& !is_pre_stop && old(self).stopping ==> r == PreStopAction::Unavailable && final(self).stopping
                &&& !is_pre_stop && !old(self).stopping ==> r == PreStopAction::Pass && !final(self).stopping
            }),
    {
        let is_pre_stop = match &self.path {
            Some(p) => method == HttpMethod::Get && bytes_equal(p.as_slice(), path),
            None => false,
        };
        if is_pre_stop {
            self.stopping = true;
            PreStopAction::Stop
        } else if self.stopping {
            PreStopAction::Unavailable
        } else {
            PreStopAction::Pass
        }
    }
}

/// What the ingress does with a request before the packet pipeline.
#[derive(Clone, Copy, Debug, PartialEq, Eq, Structural)]
pub enum IngressAction {
    /// Drain, then 200.
    Stop,
    /// 503.
    Unavailable,
    /// 200 `OK`.
    HealthOk,
    /// 405.
    MethodNotAllowed,
    /// 401.
    Unauthorized,
    /// On to the receiver.
    Accept,
}

/// The ingress filters in order: pre-stop, health check, method, token.
#[derive(Debug)]
pub struct Ingress {
    pub pre_stop: PreStopFilter,
    pub health: HealthCheckFilter,
    pub method: MethodFilter,
    pub auth: AuthTokenFilter,
}

pub open spec fn ingress_after_pre_stop(
    method: HttpMethod,
    authorization: Option<Seq<u8>>,
    tokens: Seq<crate::auth::AuthToken>,
    allowed: HttpMethod,
) -> IngressAction {
    if method == HttpMethod::Get {
        IngressAction::HealthOk
    } else if method != allowed {
        IngressAction::MethodNotAllowed
    } else if !(authorization matches Some(h) && has_token(tokens, strip_bearer(h))) {
        IngressAction::Unauthorized
    } else {
        IngressAction::Accept
    }
}

impl Ingress {
    pub fn decide(&mut self, method: HttpMethod, path: &[u8], authorization: Option<&[u8]>) -> (r: IngressAction)
        ensures
            final(self).pre_stop.path == old(self).pre_stop.path,
            final(self).method == old(self).method,
            final(self).auth.tokens@ == old(self).auth.tokens@,
            ({
                let is_pre_stop = method == HttpMethod::Get && (old(self).pre_stop.path matches Some(p) && p@ == path@);
                let auth_view = match authorization {
                    Some(h) => Some(h@),
                    None => None,
                };
                &&& is_pre_stop ==> r == IngressAction::Stop && final(self).pre_stop.stopping
                &&& !is_pre_stop && old(self).pre_stop.stopping ==> r == IngressAction::Unavailable
                &&& !is_pre_stop && !old(self).pre_stop.stopping ==> !final(self).pre_stop.stopping && r
                    == ingress_after_pre_stop(method, auth_view, old(self).auth.tokens@, old(self).method.method)
            }),
    {
        match self.pre_stop.decide(method, path) {
            PreStopAction::Stop => return IngressAction::Stop,
            PreStopAction::Unavailable => return IngressAction::Unavailable,
            PreStopAction::Pass => {},
        }
        if self.health.answers(method) {
            IngressAction::HealthOk
        } else if !self.method.allows(method) {
            IngressAction::MethodNotAllowed
        } else if !self.auth.is_authorized(authorization) {
            IngressAction::Unauthorized
        } else {
            IngressAction::Accept
        }
    }
}

// ---------------------------------------------------------------- receiver

#[derive(Clone, Copy, Debug, PartialEq, Eq, Structural)]
pub enum ReceiveError {
    /// 413: the body is longer than `MAX_REQUEST_SIZE`.
    TooLarge,
    /// 400: the body is not a Prepare.
    InvalidPrepare,
}

/// Whether a body of `len` bytes may still be read.
pub fn within_limit(len: u64, limit: usize) -> (r: bool)
    ensures
        r == (len <= limit),
{
    len <= limit as u64
}

/// Takes a request's body to the pipeline and the pipeline's answer back
/// to the response body.
#[derive(Clone, Copy, Debug)]
pub struct Receiver {}

impl Receiver {
    pub fn new() -> Receiver {
        Receiver {}
    }

    /// Reads a request body as a Prepare.
    pub fn handle(&self, body: &[u8]) -> (r: Result<Prepare, ReceiveError>)
        ensures
            body@.len() > MAX_REQUEST_SIZE ==> r == Err::<Prepare, ReceiveError>(ReceiveError::TooLarge),
            body@.len() <= MAX_REQUEST_SIZE ==> match parse_packet(body@) {
                Some(PacketView::Prepare(v)) => r matches Ok(p) && p@ == v,
                _ => r == Err::<Prepare, ReceiveError>(ReceiveError::InvalidPrepare),
            },
    {
        if body.len() > MAX_REQUEST_SIZE {
            return Err(ReceiveError::TooLarge);
        }
        match Prepare::try_from(body) {
            Ok(p) => Ok(p),
            Err(_) => Err(ReceiveError::InvalidPrepare),
        }
    }

    /// The body of the 200 response that carries the pipeline's answer.
    pub fn response_body(&self, response: &Result<Fulfill, Reject>) -> (r: Vec<u8>)
        requires
            match response {
                Ok(f) => f.wf(),
                Err(j) => j.wf(),
            },
        ensures
            r@ == match response {
                Ok(f) => packet_bytes(PacketView::Fulfill(f@)),
                Err(j) => packet_bytes(PacketView::Reject(j@)),
            },
    {
        match response {
            Ok(f) => f.to_bytes(),
            Err(j) => j.to_bytes(),
        }
    }
}

// ---------------------------------------------------------------- client

/// The outgoing side: turns a peer's answer into a Fulfill or a Reject made
/// by the connector at `address`.
#[derive(Debug)]
pub struct Client {
    pub address: Address,
}

/// What the response's status and body amount to.
pub open spec fn decoded_response(
    address: Seq<u8>,
    status: u16,
    body: Option<Seq<u8>>,
    r: Result<Fulfill, Reject>,
) -> bool {
    match body {
        None => r matches Err(j) && is_local_reject(j, make_code('T', '0', '0'), "invalid response body from peer".spec_bytes(), address),
        Some(b) => if status == 200 {
            match parse_packet(b) {
                Some(PacketView::Fulfill(v)) => r matches Ok(f) && f@ == v,
                Some(PacketView::Reject(v)) => r matches Err(j) && j@ == v,
                _ => r matches Err(j) && is_local_reject(j, make_code('T', '0', '0'), "invalid response body from peer".spec_bytes(), address),
            }
        } else if 400 <= status < 500 {
            r matches Err(j) && is_local_reject(j, make_code('F', '0', '0'), "bad request to peer".spec_bytes(), address)
        } else if 500 <= status < 600 {
            r matches Err(j) && is_local_reject(j, make_code('T', '0', '1'), "peer internal error".spec_bytes(), address)
        } else {
            r matches Err(j) && is_local_reject(j, make_code('T', '0', '0'), "unexpected response code from peer".spec_bytes(), address)
        },
    }
}

impl Client {
    pub fn new(address: Address) -> (r: Client)
        ensures
            r.address@ == address@,
    {
        Client { address }
    }

    pub fn address(&self) -> (r: &Address)
        ensures
            r@ == self.address@,
    {
        &self.address
    }

    /// Whether to send the same request again: once, after a 502.
    pub fn should_retry(&self, status: u16, attempts: u32) -> (r: bool)
        ensures
            r == (status == 502 && attempts == 1),
    {
        status == 502 && attempts == 1
    }

    /// The answer for a peer's response: `body` is what was read of it, or
    /// nothing when reading failed or went past `MAX_RESPONSE_SIZE`.
    pub fn decode_http_response(&self, status: u16, body: Option<&[u8]>) -> (r: Result<Fulfill, Reject>)
        ensures
            decoded_response(self.address@, status, match body {
                Some(b) => Some(b@),
                None => None,
            }, r),
    {
        let body = match body {
            Some(b) => b,
            None => return Err(make_reject(ErrorCode::t00_internal_error(), "invalid response body from peer", &self.address)),
        };
        if status == 200 {
            match Packet::try_from(body) {
                Ok(Packet::Fulfill(f)) => Ok(f),
                Ok(Packet::Reject(j)) => Err(j),
                _ => Err(make_reject(ErrorCode::t00_internal_error(), "invalid response body from peer", &self.address)),
            }
        } else if 400 <= status && status < 500 {
            Err(make_reject(ErrorCode::f00_bad_request(), "bad request to peer", &self.address))
        } else if 500 <= status && status < 600 {
            Err(make_reject(ErrorCode::t01_peer_unreachable(), "peer internal error", &self.address))
        } else {
            Err(make_reject(ErrorCode::t00_internal_error(), "unexpected response code from peer", &self.address))
        }
    }

    /// The answer when the request could not be sent or was cut off.
    pub fn connection_error(&self) -> (r: Reject)
        ensures
            is_local_reject(r, make_code('T', '0', '1'), "peer connection error".spec_bytes(), self.address@),
    {
        make_reject(ErrorCode::t01_peer_unreachable(), "peer connection error", &self.address)
    }

    /// Checks the header values of an outgoing request: a `F00` Reject when
    /// the peer name cannot stand in a header.
    pub fn check_peer_name(&self, peer_name: Option<&[u8]>) -> (r: Result<(), Reject>)
        ensures
            r is Ok <==> (peer_name matches Some(n) ==> is_header_value(n@)),
            r matches Err(j) ==> is_local_reject(j, make_code('F', '0', '0'), "invalid header value".spec_bytes(), self.address@),
    {
        match peer_name {
            Some(n) => if is_header_value_bytes(n) {
                Ok(())
            } else {
                Err(make_reject(ErrorCode::f00_bad_request(), "invalid header value", &self.address))
            },
            None => Ok(()),
        }
    }
}

} // verus!
