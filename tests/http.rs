use interledger_relay::address::Address;
use interledger_relay::auth::{AuthToken, AuthTokenFilter};
use interledger_relay::http::{
    Receiver, Client, HealthCheckFilter, HttpMethod, Ingress,
    IngressAction, MethodFilter, PreStopAction, PreStopFilter, ReceiveError, MAX_REQUEST_SIZE,
    MAX_RESPONSE_SIZE,
};
use interledger_relay::packet::{ErrorCode, Fulfill, Prepare, Reject};
use interledger_relay::timestamp::Timestamp;

fn addr(s: &str) -> Address {
    Address::from_slice(s.as_bytes()).unwrap()
}

fn token(s: &str) -> AuthToken {
    AuthToken::try_from(s.as_bytes().to_vec()).unwrap()
}

fn prepare() -> Prepare {
    Prepare {
        amount: 123,
        expires_at: Timestamp { year: 2030, month: 1, day: 1, hour: 0, minute: 0, second: 20 },
        execution_condition: vec![0x11; 32],
        destination: addr("test.alice.1234"),
        data: b"prepare data".to_vec(),
    }
}

fn fulfill() -> Fulfill {
    Fulfill { fulfillment: vec![0x11; 32], data: b"fulfill data".to_vec() }
}

fn reject() -> Reject {
    Reject {
        code: ErrorCode::f99_application_error(),
        message: b"Some error".to_vec(),
        triggered_by: Some(addr("example.connector")),
        data: b"reject data".to_vec(),
    }
}

fn client() -> Client {
    Client::new(addr("example.connector"))
}

fn local(code: ErrorCode, message: &str) -> Reject {
    Reject {
        code,
        message: message.as_bytes().to_vec(),
        triggered_by: Some(addr("example.connector")),
        data: Vec::new(),
    }
}

#[test]
fn auth_test_service() {
    let filter = AuthTokenFilter::new(vec![token("token_1"), token("token_2")]);
    // Correct token.
    assert!(filter.is_authorized(Some(b"token_1")));
    // Correct token with "Bearer " prefix.
    assert!(filter.is_authorized(Some(b"Bearer token_1")));
    // No token.
    assert!(!filter.is_authorized(None));
    // Incorrect token.
    assert!(!filter.is_authorized(Some(b"not_a_token")));
}

#[test]
fn test_try_from() {
    let valid = AuthToken::try_from(b"test_token".to_vec()).unwrap();
    assert_eq!(valid.as_bytes(), b"test_token");
    assert!(AuthToken::try_from(b"test\ntoken".to_vec()).is_err());
}

#[test]
fn health_check_test_service() {
    let filter = HealthCheckFilter::new();
    assert!(filter.answers(HttpMethod::Get));
    assert!(!filter.answers(HttpMethod::Post));
}

#[test]
fn method_test_service() {
    let filter = MethodFilter::new(HttpMethod::Post);
    assert!(filter.allows(HttpMethod::Post));
    assert!(!filter.allows(HttpMethod::Get));
    assert!(!filter.allows(HttpMethod::Other));
}

#[test]
fn pre_stop_then_unavailable() {
    let mut filter = PreStopFilter::new(Some(b"/pre_stop".to_vec()));
    assert_eq!(filter.decide(HttpMethod::Post, b"/"), PreStopAction::Pass);
    assert_eq!(filter.decide(HttpMethod::Post, b"/pre_stop"), PreStopAction::Pass);
    assert_eq!(filter.decide(HttpMethod::Get, b"/pre_stop"), PreStopAction::Stop);
    assert!(filter.stopping);
    assert_eq!(filter.decide(HttpMethod::Post, b"/"), PreStopAction::Unavailable);
    assert_eq!(filter.decide(HttpMethod::Get, b"/"), PreStopAction::Unavailable);
    assert_eq!(filter.decide(HttpMethod::Get, b"/pre_stop"), PreStopAction::Stop);
    let mut none = PreStopFilter::new(None);
    assert_eq!(none.decide(HttpMethod::Get, b"/pre_stop"), PreStopAction::Pass);
}

#[test]
fn ingress_order() {
    let mut ingress = Ingress {
        pre_stop: PreStopFilter::new(Some(b"/pre_stop".to_vec())),
        health: HealthCheckFilter::new(),
        method: MethodFilter::new(HttpMethod::Post),
        auth: AuthTokenFilter::new(vec![token("secret")]),
    };
    assert_eq!(ingress.decide(HttpMethod::Get, b"/", None), IngressAction::HealthOk);
    assert_eq!(ingress.decide(HttpMethod::Other, b"/", Some(b"secret")), IngressAction::MethodNotAllowed);
    assert_eq!(ingress.decide(HttpMethod::Post, b"/ilp", None), IngressAction::Unauthorized);
    assert_eq!(ingress.decide(HttpMethod::Post, b"/ilp", Some(b"wrong")), IngressAction::Unauthorized);
    assert_eq!(ingress.decide(HttpMethod::Post, b"/ilp", Some(b"Bearer secret")), IngressAction::Accept);
    assert_eq!(ingress.decide(HttpMethod::Get, b"/pre_stop", None), IngressAction::Stop);
    assert_eq!(ingress.decide(HttpMethod::Post, b"/ilp", Some(b"secret")), IngressAction::Unavailable);
}

#[test]
fn test_prepare() {
    let body = prepare().to_bytes();
    assert_eq!(Receiver::new().handle(&body), Ok(prepare()));
    assert_eq!(Receiver::new().response_body(&Ok(fulfill())), fulfill().to_bytes());
    assert_eq!(Receiver::new().response_body(&Err(reject())), reject().to_bytes());
}

#[test]
fn test_bad_request() {
    assert_eq!(Receiver::new().handle(b"this is not a prepare"), Err(ReceiveError::InvalidPrepare));
    assert_eq!(Receiver::new().handle(&fulfill().to_bytes()), Err(ReceiveError::InvalidPrepare));
}

#[test]
fn test_body_too_large() {
    let mut p = prepare();
    p.data = vec![b'.'; MAX_REQUEST_SIZE];
    let body = p.to_bytes();
    assert_eq!(Receiver::new().handle(&body), Err(ReceiveError::TooLarge));
}

#[test]
fn request_size_limit_is_exact() {
    assert_eq!(MAX_REQUEST_SIZE, 33870);
    assert_eq!(Receiver::new().handle(&vec![12; MAX_REQUEST_SIZE]), Err(ReceiveError::InvalidPrepare));
    assert_eq!(Receiver::new().handle(&vec![12; MAX_REQUEST_SIZE + 1]), Err(ReceiveError::TooLarge));
    let mut largest = prepare();
    largest.data = vec![0; 32768];
    assert!(largest.to_bytes().len() <= MAX_REQUEST_SIZE);
    assert!(Receiver::new().handle(&largest.to_bytes()).is_ok());
}

#[test]
fn test_incoming_fulfill() {
    assert_eq!(client().decode_http_response(200, Some(&fulfill().to_bytes())), Ok(fulfill()));
}

#[test]
fn test_incoming_reject() {
    assert_eq!(client().decode_http_response(200, Some(&reject().to_bytes())), Err(reject()));
}

#[test]
fn test_incoming_invalid_packet() {
    assert_eq!(
        client().decode_http_response(200, Some(b"this is not a packet")),
        Err(local(ErrorCode::t00_internal_error(), "invalid response body from peer")),
    );
    assert_eq!(
        client().decode_http_response(200, Some(&prepare().to_bytes())),
        Err(local(ErrorCode::t00_internal_error(), "invalid response body from peer")),
    );
    assert_eq!(
        client().decode_http_response(200, None),
        Err(local(ErrorCode::t00_internal_error(), "invalid response body from peer")),
    );
}

#[test]
fn test_incoming_error_codes() {
    let body = fulfill().to_bytes();
    assert_eq!(
        client().decode_http_response(300, Some(&body)),
        Err(local(ErrorCode::t00_internal_error(), "unexpected response code from peer")),
    );
    assert_eq!(
        client().decode_http_response(400, Some(&body)),
        Err(local(ErrorCode::f00_bad_request(), "bad request to peer")),
    );
    assert_eq!(
        client().decode_http_response(500, Some(&body)),
        Err(local(ErrorCode::t01_peer_unreachable(), "peer internal error")),
    );
    assert_eq!(
        client().decode_http_response(502, Some(&body)),
        Err(local(ErrorCode::t01_peer_unreachable(), "peer internal error")),
    );
}

#[test]
fn test_incoming_abort() {
    assert_eq!(client().connection_error(), local(ErrorCode::t01_peer_unreachable(), "peer connection error"));
}

#[test]
fn retry_once_after_502() {
    let c = client();
    assert!(c.should_retry(502, 1));
    assert!(!c.should_retry(502, 2));
    assert!(!c.should_retry(500, 1));
    assert!(!c.should_retry(200, 1));
}

#[test]
fn peer_name_header_check() {
    let c = client();
    assert!(c.check_peer_name(None).is_ok());
    assert!(c.check_peer_name(Some(b"carol")).is_ok());
    assert_eq!(
        c.check_peer_name(Some(b"ca\nrol")),
        Err(local(ErrorCode::f00_bad_request(), "invalid header value")),
    );
    assert_eq!(MAX_RESPONSE_SIZE, 42020);
}
