use interledger_relay::address::Address;
use interledger_relay::auth::AuthToken;
use interledger_relay::health::{RouteFailover, RouteStatus};
use interledger_relay::ildcp::{Request, Response, ResponseBuilder};
use interledger_relay::oer::put_var_octets;
use interledger_relay::packet::{ErrorCode, Fulfill, Prepare, Reject};
use interledger_relay::peers::{ConnectorPeer, Relation};
use interledger_relay::telemetry::{Logger, RowData};
use interledger_relay::routing::{NextHop, RouteIndex, RoutingPartition, RoutingTable, StaticRoute};
use interledger_relay::services::{
    deserialize_echo_request, logs_as_warning, response_is_ok, strip_connection_tag,
    ConfigOutcome, ConfigService, DebugServiceOptions, EchoOutcome, EchoService,
    ExpiryService, Forward, FromPeerService, RouterService, TelemetryService, DEFAULT_MAX_TIMEOUT,
};
use interledger_relay::timestamp::Timestamp;

fn addr(s: &str) -> Address {
    Address::from_slice(s.as_bytes()).unwrap()
}

fn token(s: &str) -> AuthToken {
    AuthToken::try_from(s.as_bytes().to_vec()).unwrap()
}

fn expires_at() -> Timestamp {
    Timestamp { year: 2030, month: 1, day: 1, hour: 0, minute: 0, second: 20 }
}

/// Milliseconds since the epoch of `expires_at()`.
fn expires_ms() -> i64 {
    expires_at().to_unix_seconds().unwrap() * 1000
}

fn prepare() -> Prepare {
    Prepare {
        amount: 123,
        expires_at: expires_at(),
        execution_condition: vec![0x11; 32],
        destination: addr("test.alice.1234"),
        data: b"prepare data".to_vec(),
    }
}

fn fulfill() -> Fulfill {
    Fulfill { fulfillment: vec![0x11; 32], data: b"fulfill data".to_vec() }
}

fn routes() -> Vec<StaticRoute> {
    vec![
        StaticRoute {
            target_prefix: b"test.alice.".to_vec(),
            next_hop: NextHop::Bilateral {
                endpoint: b"http://127.0.0.1:3001/alice".to_vec(),
                auth: Some(token("alice_auth")),
            },
            account: "alice".to_owned(),
            failover: None,
            partition: 1,
        },
        StaticRoute {
            target_prefix: b"test.relay.".to_vec(),
            next_hop: NextHop::Multilateral {
                endpoint_prefix: b"http://127.0.0.1:3001/bob/".to_vec(),
                endpoint_suffix: b"/ilp".to_vec(),
                auth: Some(token("bob_auth")),
            },
            account: "bob".to_owned(),
            failover: None,
            partition: 1,
        },
    ]
}

fn router() -> RouterService {
    RouterService::new(addr("test.relay"), RoutingTable::new(routes(), RoutingPartition::default(), 0))
}

fn serialize_echo_request(source: &[u8]) -> Vec<u8> {
    let mut data = b"ECHOECHOECHOECHO\x00".to_vec();
    put_var_octets(&mut data, source);
    data
}

fn echo_prepare(data: Vec<u8>) -> Prepare {
    Prepare {
        amount: 123,
        expires_at: expires_at(),
        execution_condition: vec![0x11; 32],
        destination: addr("test.relay"),
        data,
    }
}

// ---------------------------------------------------------------- expiry

#[test]
fn test_ok() {
    let expiry = ExpiryService::new(addr("test.alice"), DEFAULT_MAX_TIMEOUT);
    assert_eq!(expiry.check(&expires_at(), expires_ms() - 20_000), Ok(20_000));
}

#[test]
fn test_insufficient_timeout() {
    let expiry = ExpiryService::new(addr("test.alice"), DEFAULT_MAX_TIMEOUT);
    let reject = expiry.check(&expires_at(), expires_ms()).expect_err("expected Reject");
    assert_eq!(reject.code, ErrorCode::r02_insufficient_timeout());
    assert_eq!(reject.message, b"insufficient timeout".to_vec());
    assert_eq!(reject.triggered_by, Some(addr("test.alice")));
    assert!(expiry.check(&expires_at(), expires_ms() + 1).is_err());
}

#[test]
fn test_timed_out() {
    let expiry = ExpiryService::new(addr("test.alice"), DEFAULT_MAX_TIMEOUT);
    assert_eq!(expiry.check(&expires_at(), expires_ms() - 100), Ok(100));
    let reject = expiry.timed_out();
    assert_eq!(reject.code, ErrorCode::r00_transfer_timed_out());
    assert_eq!(reject.message, b"request timed out".to_vec());
}

#[test]
fn test_max_timeout() {
    let expiry = ExpiryService::new(addr("test.alice"), 15);
    assert_eq!(expiry.check(&expires_at(), expires_ms() - 20_000), Ok(15));
}

// ---------------------------------------------------------------- from peer

fn peers() -> Vec<ConnectorPeer> {
    vec![
        ConnectorPeer {
            relation: Relation::Child,
            account: "child_account".to_owned(),
            address: addr("test.relay.child"),
            auth: vec![token("token_1")],
        },
        ConnectorPeer {
            relation: Relation::Parent,
            account: "parent_account".to_owned(),
            address: addr("test.relay"),
            auth: vec![token("token_2")],
        },
    ]
}

#[test]
fn test_peer_not_found() {
    let service = FromPeerService::new(addr("test.relay"), peers());
    let reject = service.identify(Some(b"invalid_token")).unwrap_err();
    assert_eq!(reject.code, ErrorCode::f00_bad_request());
    assert_eq!(reject.message, b"could not determine packet source".to_vec());
    assert!(service.identify(None).is_err());
}

#[test]
fn test_peer_found() {
    let service = FromPeerService::new(addr("test.relay"), peers());
    let i = service.identify(Some(b"token_1")).unwrap();
    let peer = &service.peers[i];
    assert_eq!(peer.account, "child_account");
    assert_eq!(peer.relation, Relation::Child);
    assert_eq!(peer.address, addr("test.relay.child"));
    assert_eq!(service.identify(Some(b"Bearer token_2")), Ok(1));
}

#[test]
fn test_is_authorized() {
    let peer = ConnectorPeer {
        relation: Relation::Child,
        account: "child_account".to_owned(),
        address: addr("test.relay"),
        auth: vec![token("token_1"), token("token_2")],
    };
    assert_eq!(peer.is_authorized(b"token_1"), true);
    assert_eq!(peer.is_authorized(b"token_2"), true);
    assert_eq!(peer.is_authorized(b"token_3"), false);
    assert_eq!(peer.is_authorized(b"Bearer token_1"), true);
    assert_eq!(peer.is_authorized(b"Bearer token_2"), true);
    assert_eq!(peer.is_authorized(b"Bearer token_3"), false);
}

// ---------------------------------------------------------------- ILDCP

fn config_service() -> ConfigService {
    ConfigService::new(
        ResponseBuilder { client_address: addr("test.carl"), asset_scale: 9, asset_code: b"XRP".to_vec() }.build(),
    )
}

fn ildcp_prepare() -> Prepare {
    Request::new().to_prepare(expires_at())
}

#[test]
fn ildcp_test_passthrough() {
    let outcome = config_service().handle(&prepare(), Relation::Child, &addr("test.carl.child.123"), None);
    assert!(matches!(outcome, ConfigOutcome::Pass));
}

#[test]
fn test_ildcp_missing_peer_name() {
    match config_service().handle(&ildcp_prepare(), Relation::Child, &addr("test.carl.child.123"), None) {
        ConfigOutcome::Reject(j) => assert_eq!(j.code, ErrorCode::f00_bad_request()),
        other => panic!("unexpected {:?}", other),
    }
}

#[test]
fn test_ildcp_from_parent() {
    match config_service().handle(&ildcp_prepare(), Relation::Parent, &addr("test.carl.child.123"), Some(b"bob")) {
        ConfigOutcome::Reject(j) => assert_eq!(j.code, ErrorCode::f00_bad_request()),
        other => panic!("unexpected {:?}", other),
    }
}

#[test]
fn test_ildcp_response() {
    let fulfill = match config_service().handle(&ildcp_prepare(), Relation::Child, &addr("test.carl.child.123"), Some(b"bob")) {
        ConfigOutcome::Fulfill(f) => f,
        other => panic!("unexpected {:?}", other),
    };
    let response = Response::try_from(&fulfill).unwrap();
    assert_eq!(response.client_address().as_slice(), b"test.carl.child.123.bob");
    assert_eq!(response.asset_scale(), 9);
    assert_eq!(response.asset_code(), b"XRP");
}

#[test]
fn ildcp_child_gets_its_address() {
    let service = ConfigService::new(
        ResponseBuilder { client_address: addr("test.relay"), asset_scale: 9, asset_code: b"XRP".to_vec() }.build(),
    );
    let fulfill = match service.handle(&ildcp_prepare(), Relation::Child, &addr("test.relay.childX"), Some(b"carol")) {
        ConfigOutcome::Fulfill(f) => f,
        other => panic!("unexpected {:?}", other),
    };
    let bytes = fulfill.to_bytes();
    let response = Response::try_from(&Fulfill::try_from(&bytes).unwrap()).unwrap();
    assert_eq!(response.client_address().as_slice(), b"test.relay.childX.carol");
}

#[test]
fn ildcp_peer_name_must_be_a_segment() {
    for name in [&b"bo.b"[..], b"", b"bob!"] {
        match config_service().handle(&ildcp_prepare(), Relation::Child, &addr("test.carl.child"), Some(name)) {
            ConfigOutcome::Reject(j) => {
                assert_eq!(j.code, ErrorCode::f00_bad_request());
                assert_eq!(j.message, b"Invalid generated client address".to_vec());
                assert_eq!(j.triggered_by, Some(addr("test.carl")));
            },
            other => panic!("unexpected {:?}", other),
        }
    }
}

// ---------------------------------------------------------------- echo

#[test]
fn echo_test_passthrough() {
    let echo = EchoService::new(addr("test.relay"));
    match echo.handle(prepare()) {
        EchoOutcome::Forward(p) => assert_eq!(p, prepare()),
        other => panic!("unexpected {:?}", other),
    }
}

#[test]
fn test_valid_echo_request() {
    let echo = EchoService::new(addr("test.relay"));
    let forwarded = match echo.handle(echo_prepare(serialize_echo_request(b"test.origin"))) {
        EchoOutcome::Forward(p) => p,
        other => panic!("unexpected {:?}", other),
    };
    assert_eq!(
        forwarded,
        Prepare {
            amount: 123,
            expires_at: Timestamp { year: 2030, month: 1, day: 1, hour: 0, minute: 0, second: 19 },
            execution_condition: vec![0x11; 32],
            destination: addr("test.origin"),
            data: b"ECHOECHOECHOECHO\x01".to_vec(),
        }
    );
}

#[test]
fn test_invalid_echo_request() {
    let echo = EchoService::new(addr("test.relay"));
    match echo.handle(echo_prepare(serialize_echo_request(b"bad..address"))) {
        EchoOutcome::Reject(j) => assert_eq!(j.code, ErrorCode::f01_invalid_packet()),
        other => panic!("unexpected {:?}", other),
    }
}

#[test]
fn test_deserialize_echo_request() {
    // Valid request.
    let valid_request = serialize_echo_request(b"example.address");
    assert_eq!(deserialize_echo_request(&valid_request).unwrap(), addr("example.address"));
    // Empty.
    assert!(deserialize_echo_request(&[]).is_none());
    // Echo response.
    let mut echo_response = b"ECHOECHOECHOECHO\x01".to_vec();
    put_var_octets(&mut echo_response, b"example.address");
    assert!(deserialize_echo_request(&echo_response).is_none());
    // Missing source address.
    assert!(deserialize_echo_request(b"ECHOECHOECHOECHO\x00").is_none());
    // Invalid source address.
    let with_invalid_address = serialize_echo_request(b"bad..address");
    assert!(deserialize_echo_request(&with_invalid_address).is_none());
}

#[test]
fn echo_crossing_a_minute() {
    let echo = EchoService::new(addr("test.relay"));
    let mut p = echo_prepare(serialize_echo_request(b"test.origin"));
    p.expires_at = Timestamp { year: 2030, month: 3, day: 1, hour: 0, minute: 0, second: 0 };
    match echo.handle(p) {
        EchoOutcome::Forward(q) => assert_eq!(
            q.expires_at,
            Timestamp { year: 2030, month: 2, day: 28, hour: 23, minute: 59, second: 59 }
        ),
        other => panic!("unexpected {:?}", other),
    }
}

// ---------------------------------------------------------------- router

#[test]
fn service_test_outgoing_request_bilateral() {
    match router().forward(&prepare(), 0) {
        Forward::Send(d) => {
            assert_eq!(d.uri, b"http://127.0.0.1:3001/alice".to_vec());
            assert_eq!(d.auth, Some(token("alice_auth")));
            assert_eq!(d.body, prepare().to_bytes());
            assert_eq!(d.index, RouteIndex::new(0, 0));
        },
        other => panic!("unexpected {:?}", other),
    }
}

#[test]
fn service_test_outgoing_request_multilateral() {
    let mut p = prepare();
    p.destination = addr("test.relay.1234.5678");
    match router().forward(&p, 0) {
        Forward::Send(d) => {
            assert_eq!(d.uri, b"http://127.0.0.1:3001/bob/1234/ilp".to_vec());
            assert_eq!(d.auth, Some(token("bob_auth")));
        },
        other => panic!("unexpected {:?}", other),
    }
}

#[test]
fn multilateral_segment_must_be_valid() {
    let r = RouterService::new(
        addr("test.relay"),
        RoutingTable::new(
            vec![StaticRoute { target_prefix: b"test.".to_vec(), ..routes().remove(1) }],
            RoutingPartition::default(),
            0,
        ),
    );
    let mut p = prepare();
    p.destination = addr("test.relay");
    match r.forward(&p, 0) {
        Forward::Send(d) => assert_eq!(d.uri, b"http://127.0.0.1:3001/bob/relay/ilp".to_vec()),
        other => panic!("unexpected {:?}", other),
    }
    let mut q = prepare();
    q.destination = addr("test");
    let s = RouterService::new(
        addr("test.relay"),
        RoutingTable::new(
            vec![StaticRoute { target_prefix: b"test".to_vec(), ..routes().remove(1) }],
            RoutingPartition::default(),
            0,
        ),
    );
    match s.forward(&q, 0) {
        Forward::Reject(j) => {
            assert_eq!(j.code, ErrorCode::f02_unreachable());
            assert_eq!(j.message, b"invalid address segment".to_vec());
            assert_eq!(j.triggered_by, Some(addr("test.relay")));
        },
        other => panic!("unexpected {:?}", other),
    }
}

#[test]
fn test_no_route_exists() {
    let r = RouterService::new(
        addr("test.relay"),
        RoutingTable::new(vec![routes().remove(1)], RoutingPartition::default(), 0),
    );
    match r.forward(&prepare(), 0) {
        Forward::Reject(j) => assert_eq!(
            j,
            Reject {
                code: ErrorCode::f02_unreachable(),
                message: b"no route exists".to_vec(),
                triggered_by: Some(addr("test.relay")),
                data: Vec::new(),
            }
        ),
        other => panic!("unexpected {:?}", other),
    }
}

#[test]
fn service_test_set_routes() {
    let mut r = router();
    r.set_routes(RoutingTable::new(
        vec![StaticRoute {
            target_prefix: b"test.alice.".to_vec(),
            next_hop: NextHop::Bilateral { endpoint: b"http://127.0.0.1:3001/new_alice".to_vec(), auth: None },
            account: "alice".to_owned(),
            failover: None,
            partition: 1,
        }],
        RoutingPartition::default(),
        0,
    ));
    match r.forward(&prepare(), 0) {
        Forward::Send(d) => {
            assert_eq!(d.uri, b"http://127.0.0.1:3001/new_alice".to_vec());
            assert_eq!(d.auth, None);
        },
        other => panic!("unexpected {:?}", other),
    }
}

#[test]
fn test_mark_as_unhealthy() {
    let mut route = routes().remove(0);
    route.failover = Some(RouteFailover { window_size: 20, fail_ratio: 10_000, fail_duration: 5000 });
    let mut r = RouterService::new(addr("test.relay"), RoutingTable::new(vec![route], RoutingPartition::default(), 0));
    let d = match r.forward(&prepare(), 10) {
        Forward::Send(d) => d,
        other => panic!("unexpected {:?}", other),
    };
    assert!(d.has_failover);
    // The peer answered 500: the client's Reject is the connector's own T01.
    let response: Result<Fulfill, Reject> = Err(Reject {
        code: ErrorCode::t01_peer_unreachable(),
        message: b"peer internal error".to_vec(),
        triggered_by: Some(addr("test.relay")),
        data: Vec::new(),
    });
    r.observe(&d, &response, 20);
    assert_eq!(r.routes.groups[0].routes[0].status, RouteStatus::Unhealthy { until: 5020 });
    match r.forward(&prepare(), 30) {
        Forward::Reject(j) => {
            assert_eq!(j.code, ErrorCode::t01_peer_unreachable());
            assert_eq!(j.message, b"no healthy route found".to_vec());
        },
        other => panic!("unexpected {:?}", other),
    }
}

#[test]
fn health_demotion_moves_traffic_to_sibling() {
    let failover = Some(RouteFailover { window_size: 20, fail_ratio: 60_000, fail_duration: 2000 });
    let mut first = routes().remove(0);
    first.failover = failover;
    let mut second = routes().remove(0);
    second.failover = failover;
    second.next_hop = NextHop::Bilateral { endpoint: b"http://127.0.0.1:3001/alice2".to_vec(), auth: None };
    // All traffic on the first route.
    first.partition = 1;
    second.partition = 0;
    let mut r = RouterService::new(
        addr("test.relay"),
        RoutingTable::new(vec![first, second], RoutingPartition::default(), 0),
    );
    let failure: Result<Fulfill, Reject> = Err(local_failure(&addr("test.relay")));
    for now in [100u64, 200] {
        let d = match r.forward(&prepare(), now) {
            Forward::Send(d) => d,
            other => panic!("unexpected {:?}", other),
        };
        assert_eq!(d.index, RouteIndex::new(0, 0));
        r.observe(&d, &failure, now);
    }
    match r.forward(&prepare(), 1000) {
        Forward::Send(d) => assert_eq!(d.index, RouteIndex::new(0, 1)),
        other => panic!("unexpected {:?}", other),
    }
    match r.forward(&prepare(), 2201) {
        Forward::Send(d) => assert_eq!(d.index, RouteIndex::new(0, 0)),
        other => panic!("unexpected {:?}", other),
    }
}

fn local_failure(address: &Address) -> Reject {
    Reject {
        code: ErrorCode::t01_peer_unreachable(),
        message: b"peer connection error".to_vec(),
        triggered_by: Some(address.clone()),
        data: Vec::new(),
    }
}

#[test]
fn outcomes_for_health() {
    let me = addr("test.relay");
    assert!(response_is_ok(&me, &Ok(fulfill())));
    let mine = Reject {
        code: ErrorCode::t01_peer_unreachable(),
        message: Vec::new(),
        triggered_by: Some(me.clone()),
        data: Vec::new(),
    };
    assert!(!response_is_ok(&me, &Err(mine.clone())));
    let elsewhere = Reject { triggered_by: Some(addr("test.other")), ..mine.clone() };
    assert!(response_is_ok(&me, &Err(elsewhere)));
    let other_code = Reject { code: ErrorCode::f02_unreachable(), ..mine };
    assert!(response_is_ok(&me, &Err(other_code)));
}

// ---------------------------------------------------------------- debug, telemetry

#[test]
fn warning_codes() {
    for code in [&b"F01"[..], b"F02", b"F05", b"F06", b"F07", b"T03", b"T05", b"R00", b"R01", b"R02"] {
        assert!(logs_as_warning(ErrorCode::new(code[0], code[1], code[2])));
    }
    for code in [&b"F00"[..], b"F99", b"T00", b"T01", b"R99"] {
        assert!(!logs_as_warning(ErrorCode::new(code[0], code[1], code[2])));
    }
    let d = DebugServiceOptions::default();
    assert!(!d.log_prepare && !d.log_fulfill && !d.log_reject);
}

#[test]
fn telemetry_decisions() {
    let me = addr("test.relay");
    let dummy = TelemetryService::new(me.clone(), Logger::new(0, 3));
    assert!(dummy.check_available().is_none());
    let mut busy = TelemetryService::new(me.clone(), Logger::new(1, 1));
    assert!(busy.check_available().is_none());
    let row = RowData::new(&"alice".to_owned(), &prepare(), 5);
    assert_eq!(busy.record(row.clone(), &Ok(fulfill())), Some((0, vec![row])));
    let j = busy.check_available().unwrap();
    assert_eq!(j.code, ErrorCode::t03_connector_busy());
    assert_eq!(j.message, b"backend is unavailable".to_vec());
    assert_eq!(strip_connection_tag(b"g.alice.bob.tag123"), b"g.alice.bob".to_vec());
    assert_eq!(strip_connection_tag(b"alice"), b"alice".to_vec());
}

#[test]
fn fulfilled_prepare_is_recorded_once() {
    let mut svc = TelemetryService::new(addr("test.relay"), Logger::new(2, 10));
    let mut p = prepare();
    p.destination = addr("g.alice.bob.streamtag");
    let row = RowData::new(&"child_account".to_owned(), &p, 42);
    assert_eq!(row.destination, b"g.alice.bob".to_vec());
    assert_eq!(row.amount, 123);
    assert_eq!(svc.record(row.clone(), &Err(local_failure(&addr("test.relay")))), None);
    assert_eq!(svc.logger.queues[0].len(), 0);
    assert_eq!(svc.record(row.clone(), &Ok(fulfill())), None);
    assert_eq!(svc.logger.queues[0].rows, vec![row]);
    assert_eq!(svc.logger.queues[1].len(), 0);
    assert!(svc.logger.overflow.is_empty());
}

#[test]
fn happy_path_end_to_end() {
    // Static root example.alice; one route test.alice. -> http://R/alice.
    let table = RoutingTable::new(vec![routes().remove(0)], RoutingPartition::default(), 0);
    let router = RouterService::new(addr("example.alice"), table);
    let client = interledger_relay::http::Client::new(addr("example.alice"));
    let d = match router.forward(&prepare(), 0) {
        Forward::Send(d) => d,
        other => panic!("unexpected {:?}", other),
    };
    assert_eq!(d.uri, b"http://127.0.0.1:3001/alice".to_vec());
    assert_eq!(d.auth, Some(token("alice_auth")));
    // The peer answers 200 with a Fulfill; the caller gets that Fulfill back.
    let answer = client.decode_http_response(200, Some(&fulfill().to_bytes()));
    assert_eq!(answer, Ok(fulfill()));
    assert_eq!(interledger_relay::http::Receiver::new().response_body(&answer), fulfill().to_bytes());
}
