use wallet_sync::remote::{Network, NoServerError, Server, ServerOperator, Servers};

#[test]
fn parse_operator_names() {
    assert!(matches!(Servers::parse("ecc"), Ok(Servers::Hosted(ServerOperator::Ecc))));
    assert!(matches!(Servers::parse("ywallet"), Ok(Servers::Hosted(ServerOperator::YWallet))));
    assert!(matches!(Servers::parse("zecrocks"), Ok(Servers::Hosted(ServerOperator::ZecRocks))));
}

#[test]
fn parse_host_port_list() {
    match Servers::parse("a.example:9067,127.0.0.1:+80,::1:443") {
        Ok(Servers::Custom(v)) => {
            let got: Vec<(String, u16)> = v.iter().map(|s| (s.host().to_string(), s.port())).collect();
            assert_eq!(
                got,
                vec![
                    ("a.example".to_string(), 9067),
                    ("127.0.0.1".to_string(), 80),
                    ("::1".to_string(), 443)
                ]
            );
        }
        other => panic!("unexpected {:?}", other),
    }
}

#[test]
fn parse_rejects_malformed_input() {
    for s in ["", "ECC", "host", "host:", "host:65536", "host:-1", "a:1,", "a:1,b", "host:12x", "host:+"] {
        let e = Servers::parse(s).unwrap_err();
        assert_eq!(e.input, s);
    }
}

#[test]
fn parse_accepts_largest_port_and_empty_host() {
    match Servers::parse(":65535") {
        Ok(Servers::Custom(v)) => {
            assert_eq!(v.len(), 1);
            assert_eq!(v[0].host(), "");
            assert_eq!(v[0].port(), 65535);
        }
        other => panic!("unexpected {:?}", other),
    }
}

#[test]
fn pick_first_hosted_server() {
    let s = Servers::parse("zecrocks").unwrap().pick(Network::MainNetwork).unwrap();
    assert_eq!(s.address(), "zec.rocks:443");
    let s = Servers::parse("zecrocks").unwrap().pick(Network::TestNetwork).unwrap();
    assert_eq!(s.address(), "testnet.zec.rocks:443");
    let s = Servers::parse("ecc").unwrap().pick(Network::TestNetwork).unwrap();
    assert_eq!(s.address(), "lightwalletd.testnet.electriccoin.co:9067");
    let s = Servers::parse("ywallet").unwrap().pick(Network::MainNetwork).unwrap();
    assert_eq!(s.address(), "lwd1.zcash-infra.com:9067");
}

#[test]
fn pick_fails_where_operator_serves_nothing() {
    let e = Servers::parse("ecc").unwrap().pick(Network::MainNetwork).unwrap_err();
    assert_eq!(e, NoServerError { operator: ServerOperator::Ecc, network: Network::MainNetwork });
    let e = Servers::parse("ywallet").unwrap().pick(Network::TestNetwork).unwrap_err();
    assert_eq!(e.operator, ServerOperator::YWallet);
}

#[test]
fn pick_first_custom_server() {
    let s = Servers::parse("x:1,y:2").unwrap().pick(Network::TestNetwork).unwrap();
    assert_eq!(s.address(), "x:1");
}

#[test]
fn operator_lists() {
    assert_eq!(ServerOperator::YWallet.servers(Network::MainNetwork).len(), 8);
    assert_eq!(ServerOperator::ZecRocks.servers(Network::MainNetwork).len(), 5);
    assert!(ServerOperator::Ecc.servers(Network::MainNetwork).is_empty());
}

#[test]
fn tls_for_remote_hosts_only() {
    assert!(!Server::fixed("localhost", 9067).use_tls());
    assert!(!Server::fixed("127.0.0.1", 9067).use_tls());
    assert!(!Server::fixed("::1", 9067).use_tls());
    assert!(Server::fixed("zec.rocks", 443).use_tls());
    assert!(Server::fixed("localhost.example", 443).use_tls());
}

#[test]
fn endpoint_urls() {
    assert_eq!(Server::fixed("zec.rocks", 443).endpoint(), "https://zec.rocks:443");
    assert_eq!(Server::custom("localhost".to_string(), 9067).endpoint(), "http://localhost:9067");
    assert_eq!(Server::fixed("h", 0).endpoint(), "https://h:0");
    assert_eq!(Server::fixed("h", 65535).address(), "h:65535");
}
