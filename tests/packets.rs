use interledger_relay::address::{validate_address, Address};
use interledger_relay::clock::{MAX_UNIX_SECONDS, MIN_UNIX_SECONDS};
use interledger_relay::ildcp::{
    ildcp_destination_address, peer_protocol_condition_bytes, Request, Response, ResponseBuilder,
};
use interledger_relay::oer::{put_var_len, put_var_octets, read_var_len};
use interledger_relay::packet::{ErrorCode, Fulfill, Packet, ParseError, Prepare, Reject};
use interledger_relay::timestamp::Timestamp;

const CONDITION: [u8; 32] = [
    0x11, 0x7b, 0x43, 0x4f, 0x1a, 0x54, 0xe9, 0x04, 0x4f, 0x4f, 0x54, 0x92, 0x3b, 0x2c, 0xff, 0x9e,
    0x4a, 0x6d, 0x42, 0x0a, 0xe2, 0x81, 0xd5, 0x02, 0x5d, 0x7b, 0xb0, 0x40, 0xc4, 0xb4, 0xc0, 0x4a,
];

static REQUEST_BYTES: &[u8] = b"\
    \x0c\x46\x00\x00\x00\x00\x00\x00\x00\x00\x32\x30\x31\x35\x30\x36\x31\x36\
    \x30\x30\x30\x31\x30\x30\x30\x30\x30\x66\x68\x7a\xad\xf8\x62\xbd\x77\x6c\
    \x8f\xc1\x8b\x8e\x9f\x8e\x20\x08\x97\x14\x85\x6e\xe2\x33\xb3\x90\x2a\x59\
    \x1d\x0d\x5f\x29\x25\x0b\x70\x65\x65\x72\x2e\x63\x6f\x6e\x66\x69\x67\x00\
";

static RESPONSE_BYTES: &[u8] = b"\
    \x0d\x35\x00\x00\x00\x00\x00\x00\x00\x00\x00\x00\x00\x00\x00\x00\x00\x00\
    \x00\x00\x00\x00\x00\x00\x00\x00\x00\x00\x00\x00\x00\x00\x00\x00\x14\x0e\
    \x65\x78\x61\x6d\x70\x6c\x65\x2e\x63\x6c\x69\x65\x6e\x74\x0d\x03\x58\x41\
    \x4d\
";

static WRONG_FULFILLMENT: &[u8] = b"\
    \x0d\x35\x00\x00\x00\x00\x00\x00\x00\x00\x00\x00\x00\x00\x00\x00\x10\x00\
    \x00\x00\x00\x00\x00\x00\x00\x00\x00\x00\x00\x00\x00\x00\x00\x00\x14\x0e\
    \x65\x78\x61\x6d\x70\x6c\x65\x2e\x63\x6c\x69\x65\x6e\x74\x0d\x03\x58\x41\
    \x4d\
";

fn addr(s: &str) -> Address {
    Address::from_slice(s.as_bytes()).unwrap()
}

fn expires_at() -> Timestamp {
    Timestamp { year: 2030, month: 6, day: 15, hour: 12, minute: 30, second: 45 }
}

fn prepare() -> Prepare {
    Prepare {
        amount: 123,
        expires_at: expires_at(),
        execution_condition: CONDITION.to_vec(),
        destination: addr("test.alice.1234"),
        data: b"prepare data".to_vec(),
    }
}

#[test]
fn test_try_from_prepare() {
    let prepare = Prepare::try_from(REQUEST_BYTES).unwrap();
    assert_eq!(prepare.amount, 0);
    assert_eq!(
        prepare.expires_at,
        Timestamp { year: 2015, month: 6, day: 16, hour: 0, minute: 1, second: 0 }
    );
    let request = Request::try_from(&prepare).unwrap();
    assert_eq!(request, Request {});

    let wrong_destination = Prepare {
        amount: 0,
        expires_at: expires_at(),
        execution_condition: peer_protocol_condition_bytes(),
        destination: addr("peer.config.not_ildcp"),
        data: Vec::new(),
    };
    assert!(Request::try_from(&wrong_destination).is_err());
    let wrong_condition = Prepare {
        amount: 0,
        expires_at: expires_at(),
        execution_condition: vec![0; 32],
        destination: ildcp_destination_address(),
        data: Vec::new(),
    };
    assert!(Request::try_from(&wrong_condition).is_err());
}

#[test]
fn test_to_prepare() {
    let request = Request::new();
    let prepare = request.to_prepare(expires_at());
    assert_eq!(prepare.amount, 0);
    assert_eq!(prepare.destination.as_slice(), b"peer.config");
    assert_eq!(prepare.execution_condition, peer_protocol_condition_bytes());
    assert_eq!(prepare.data, b"".to_vec());
}

#[test]
fn test_try_from_fulfill() {
    let fulfill = Fulfill::try_from(RESPONSE_BYTES).unwrap();
    let response = Response::try_from(&fulfill).unwrap();
    assert_eq!(response.client_address().as_slice(), b"example.client");
    assert_eq!(response.asset_scale(), 13);
    assert_eq!(response.asset_code(), b"XAM");

    let fulfill = Fulfill::try_from(WRONG_FULFILLMENT).unwrap();
    assert!(Response::try_from(&fulfill).is_err());
}

#[test]
fn test_into_fulfill() {
    let response = ResponseBuilder {
        client_address: addr("example.client"),
        asset_scale: 13,
        asset_code: b"XAM".to_vec(),
    }
    .build();
    assert_eq!(response.to_fulfill().to_bytes(), RESPONSE_BYTES.to_vec());
}

#[test]
fn prepare_round_trip() {
    let p = prepare();
    let bytes = p.to_bytes();
    assert_eq!(bytes[0], 12);
    assert_eq!(Prepare::try_from(&bytes).unwrap(), p);
    assert_eq!(Packet::try_from(&bytes).unwrap(), Packet::Prepare(p));
}

#[test]
fn fulfill_and_reject_round_trip() {
    let f = Fulfill { fulfillment: CONDITION.to_vec(), data: b"fulfill data".to_vec() };
    let bytes = f.to_bytes();
    assert_eq!(Fulfill::try_from(&bytes).unwrap(), f);
    assert_eq!(Prepare::try_from(&bytes), Err(ParseError::WrongType));

    let j = Reject {
        code: ErrorCode::f99_application_error(),
        message: b"Some error".to_vec(),
        triggered_by: Some(addr("example.connector")),
        data: b"reject data".to_vec(),
    };
    let bytes = j.to_bytes();
    assert_eq!(&bytes[2..5], b"F99");
    assert_eq!(Reject::try_from(&bytes).unwrap(), j);

    let anonymous = Reject { triggered_by: None, ..j };
    assert_eq!(Reject::try_from(&anonymous.to_bytes()).unwrap(), anonymous);
}

#[test]
fn ildcp_response_round_trip() {
    let response = ResponseBuilder {
        client_address: addr("test.relay.child.carol"),
        asset_scale: 9,
        asset_code: b"XRP".to_vec(),
    }
    .build();
    let bytes = response.to_fulfill().to_bytes();
    let fulfill = Fulfill::try_from(&bytes).unwrap();
    assert_eq!(Response::try_from(&fulfill).unwrap(), response);
}

#[test]
fn large_data_uses_long_length_prefix() {
    let mut p = prepare();
    p.data = vec![7; 32768];
    let bytes = p.to_bytes();
    // 0x82: a two-byte big-endian length follows.
    assert_eq!(bytes[1], 0x82);
    assert_eq!(Prepare::try_from(&bytes).unwrap(), p);
}

#[test]
fn invalid_packets_are_refused() {
    let good = prepare().to_bytes();
    assert_eq!(Packet::try_from(b""), Err(ParseError::InvalidPacket));
    assert_eq!(Packet::try_from(b"this is not a packet"), Err(ParseError::InvalidPacket));
    let mut wrong_tag = good.clone();
    wrong_tag[0] = 99;
    assert_eq!(Packet::try_from(&wrong_tag), Err(ParseError::InvalidPacket));
    assert_eq!(Packet::try_from(&good[..good.len() - 1]), Err(ParseError::InvalidPacket));
    let mut trailing = good.clone();
    trailing.push(0);
    assert_eq!(Packet::try_from(&trailing), Err(ParseError::InvalidPacket));
    // An invalid month in the timestamp.
    let mut bad_time = good.clone();
    bad_time[2 + 8 + 4] = b'1';
    bad_time[2 + 8 + 5] = b'3';
    assert_eq!(Packet::try_from(&bad_time), Err(ParseError::InvalidPacket));
    // A Reject whose code is not ASCII.
    let j = Reject {
        code: ErrorCode::new(0xff, b'0', b'0'),
        message: Vec::new(),
        triggered_by: None,
        data: Vec::new(),
    };
    assert_eq!(Packet::try_from(&j.to_bytes()), Err(ParseError::InvalidPacket));
}

#[test]
fn timestamp_encoding() {
    let bytes = prepare().to_bytes();
    assert_eq!(&bytes[10..27], b"20300615123045000");
    let feb29 = Timestamp { year: 2024, month: 2, day: 29, hour: 0, minute: 0, second: 0 };
    assert!(feb29.is_valid());
    let not_leap = Timestamp { year: 2023, month: 2, day: 29, hour: 0, minute: 0, second: 0 };
    assert!(!not_leap.is_valid());
    let century = Timestamp { year: 1900, month: 2, day: 29, hour: 0, minute: 0, second: 0 };
    assert!(!century.is_valid());
}

#[test]
fn timestamp_unix_seconds() {
    let t = Timestamp { year: 1970, month: 1, day: 1, hour: 0, minute: 1, second: 0 };
    assert_eq!(t.to_unix_seconds(), Some(60));
    let earlier = Timestamp { year: 2020, month: 1, day: 1, hour: 0, minute: 0, second: 0 }
        .seconds_earlier(1)
        .unwrap();
    assert_eq!(
        earlier,
        Timestamp { year: 2019, month: 12, day: 31, hour: 23, minute: 59, second: 59 }
    );
}

#[test]
fn var_length_encoding() {
    for n in [0usize, 1, 127, 128, 255, 256, 65535, 65536, 1 << 40] {
        let mut out = Vec::new();
        put_var_len(&mut out, n);
        assert_eq!(read_var_len(&out, 0), Some((n as u64, out.len())));
    }
    let mut out = Vec::new();
    put_var_len(&mut out, 300);
    assert_eq!(out, vec![0x82, 0x01, 0x2c]);
    let mut out = Vec::new();
    put_var_octets(&mut out, b"abc");
    assert_eq!(out, b"\x03abc".to_vec());
    assert_eq!(read_var_len(&[0x80], 0), None);
    assert_eq!(read_var_len(&[0x89, 0, 0, 0, 0, 0, 0, 0, 0, 1], 0), None);
}

#[test]
fn address_validation() {
    assert!(validate_address(b"test.alice"));
    assert!(validate_address(b"g"));
    assert!(!validate_address(b""));
    assert!(!validate_address(b".test"));
    assert!(!validate_address(b"test."));
    assert!(!validate_address(b"test..alice"));
    assert!(!validate_address(b"test.al~ice"));
    assert!(validate_address(&vec![b'a'; 1023]));
    assert!(!validate_address(&vec![b'a'; 1024]));
    let a = addr("test.carl");
    assert_eq!(a.with_suffix(b"bob").unwrap().as_slice(), b"test.carl.bob");
    assert!(a.with_suffix(b"").is_err());
}

#[test]
fn calendar_bounds() {
    let first = Timestamp { year: 0, month: 1, day: 1, hour: 0, minute: 0, second: 0 };
    let last = Timestamp { year: 9999, month: 12, day: 31, hour: 23, minute: 59, second: 59 };
    assert_eq!(first.to_unix_seconds(), Some(MIN_UNIX_SECONDS));
    assert_eq!(last.to_unix_seconds(), Some(MAX_UNIX_SECONDS));
    assert_eq!(Timestamp::from_unix_seconds(MIN_UNIX_SECONDS), Some(first));
    assert_eq!(Timestamp::from_unix_seconds(MAX_UNIX_SECONDS), Some(last));
    assert_eq!(Timestamp::from_unix_seconds(MAX_UNIX_SECONDS + 1), None);
    assert_eq!(first.seconds_earlier(1), None);
    let leap = Timestamp { year: 2024, month: 3, day: 1, hour: 0, minute: 0, second: 0 };
    assert_eq!(
        leap.seconds_earlier(1),
        Some(Timestamp { year: 2024, month: 2, day: 29, hour: 23, minute: 59, second: 59 })
    );
}
