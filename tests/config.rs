use interledger_relay::address::Address;
use interledger_relay::auth::AuthToken;
use interledger_relay::config::{all_tokens, peers_of, static_root, RelationConfig};
use interledger_relay::peers::Relation;
use interledger_relay::routing::{NextHop, RouterError, StaticRoute};

fn addr(s: &str) -> Address {
    Address::from_slice(s.as_bytes()).unwrap()
}

fn token(s: &str) -> AuthToken {
    AuthToken::try_from(s.as_bytes().to_vec()).unwrap()
}

fn relatives() -> Vec<RelationConfig> {
    vec![
        RelationConfig::Child {
            account: "child_account".to_owned(),
            auth: vec![token("secret_child")],
            suffix: b"child".to_vec(),
        },
        RelationConfig::Parent { account: "parent_account".to_owned(), auth: vec![token("secret_parent"), token("other")] },
    ]
}

#[test]
fn relatives_become_peers() {
    let peers = peers_of(&relatives(), &addr("example.alice")).unwrap();
    assert_eq!(peers.len(), 2);
    assert_eq!(peers[0].relation, Relation::Child);
    assert_eq!(peers[0].address, addr("example.alice.child"));
    assert_eq!(peers[0].account, "child_account");
    assert_eq!(peers[0].auth, vec![token("secret_child")]);
    assert_eq!(peers[1].relation, Relation::Parent);
    assert_eq!(peers[1].address, addr("example.alice"));
    assert!(peers[1].is_authorized(b"Bearer other"));
}

#[test]
fn child_suffix_must_make_an_address() {
    let bad = vec![RelationConfig::Child { account: "c".to_owned(), auth: Vec::new(), suffix: b"a..b".to_vec() }];
    assert!(peers_of(&bad, &addr("example.alice")).is_err());
}

#[test]
fn tokens_of_all_relatives() {
    assert_eq!(all_tokens(&relatives()), vec![token("secret_child"), token("secret_parent"), token("other")]);
}

#[test]
fn static_root_response() {
    let r = static_root(addr("example.alice"), 9, b"XRP".to_vec());
    assert_eq!(r.client_address().as_slice(), b"example.alice");
    assert_eq!(r.asset_scale(), 9);
    assert_eq!(r.asset_code(), b"XRP");
}

#[test]
fn multilateral_uri_must_parse() {
    let route = StaticRoute {
        target_prefix: b"test.relay.".to_vec(),
        next_hop: NextHop::Multilateral {
            endpoint_prefix: b"http://exa mple.com/".to_vec(),
            endpoint_suffix: b"/ilp".to_vec(),
            auth: None,
        },
        account: "bob".to_owned(),
        failover: None,
        partition: 1,
    };
    assert_eq!(route.endpoint(b"test.relay.bob"), Err(RouterError::InvalidUri));
}
