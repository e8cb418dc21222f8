use wgconfgen::cli::Format;
use wgconfgen::config::{u8_to_dec, Config, Route, Server};
use wgconfgen::errors::ConfigError;
use wgconfgen::keys::derive_public;
use wgconfgen::wgc::WireguardConfig;

// RFC 7748 section 6.1 key pair, base64-encoded.
const ALICE_PRIV: &str = "dwdtCnMYpX08FsFyUbJmRd9ML4frwJkqsXf7pR25LCo=";
const ALICE_PUB: &str = "hSDwCYkwp1R0i33ctD73Wg2/Og0mOBr066SpjqqbTmo=";
const BOB_PRIV: &str = "XasIfmJKikt54X+Lg4AO5m87sSkmGLb9HC+LJ/+I4Os=";
const BOB_PUB: &str = "3p7bfXt9wbTTW2HC7OQ1Nz+DQ8hbeGdNrfx+FG+IK08=";

fn server(node: &str, address: &str, key: &str) -> Server {
    Server {
        node: node.to_string(),
        address: address.to_string(),
        private_key: key.to_string(),
        ..Default::default()
    }
}

fn two_node_config() -> Config {
    Config {
        network: "10.0.0.0/24".to_string(),
        mtu: 1420,
        servers: vec![
            server("a", "10.0.0.1", ALICE_PRIV),
            server("b", "10.0.0.2", BOB_PRIV),
        ],
        ..Default::default()
    }
}

#[test]
fn it_works() {
    let mut config = Config {
        network: "10.0.0.0/24".to_string(),
        mtu: 1420,
        servers: vec![
            server("home-gateway", "10.0.0.1", ALICE_PRIV),
            server("remote", "10.0.0.2", BOB_PRIV),
        ],
        ..Default::default()
    };
    config.servers[0].routes = Some(vec![Route {
        via: "remote".to_string(),
        routes: vec!["192.168.0.0/24".to_string()],
        endpoint: None,
        persistent_keepalive: None,
    }]);
    let config = config.prepare().unwrap();

    let config = WireguardConfig::new(&config, "home-gateway", true);
    println!("{:?}", config);
}

#[test]
fn derivation_is_deterministic() {
    let first = derive_public(ALICE_PRIV).unwrap();
    let second = derive_public(ALICE_PRIV).unwrap();
    assert_eq!(first, second);
    assert_ne!(first, ALICE_PRIV);
}

#[test]
fn derivation_matches_known_vector() {
    assert_eq!(derive_public(ALICE_PRIV).unwrap(), ALICE_PUB);
    assert_eq!(derive_public(BOB_PRIV).unwrap(), BOB_PUB);
}

#[test]
fn derivation_rejects_wrong_length() {
    // "shortkey": valid base64 of fewer than 32 bytes.
    assert_eq!(derive_public("c2hvcnRrZXk="), None);
}

#[test]
fn derivation_rejects_bad_encoding() {
    assert_eq!(derive_public("not base64!!"), None);
}

#[test]
fn validates_a_sound_declaration() {
    assert_eq!(two_node_config().valid(), Ok(()));
}

#[test]
fn rejects_missing_network() {
    let mut config = two_node_config();
    config.network = String::new();
    assert_eq!(config.valid(), Err(ConfigError::MissingNetwork));
}

#[test]
fn rejects_malformed_network() {
    let mut config = two_node_config();
    config.network = "10.0.0.0".to_string();
    assert_eq!(config.valid(), Err(ConfigError::MalformedNetwork));
}

#[test]
fn rejects_empty_node_list() {
    let mut config = two_node_config();
    config.servers = Vec::new();
    assert_eq!(config.valid(), Err(ConfigError::NoNodes));
}

#[test]
fn rejects_malformed_address() {
    let mut config = two_node_config();
    config.servers[1].address = "10.0.0".to_string();
    assert_eq!(
        config.valid(),
        Err(ConfigError::MalformedAddress("b".to_string()))
    );
}

#[test]
fn rejects_duplicate_address() {
    let mut config = two_node_config();
    config.servers[1].address = "10.0.0.1".to_string();
    assert_eq!(
        config.valid(),
        Err(ConfigError::DuplicateAddress("b".to_string()))
    );
}

#[test]
fn rejects_address_out_of_network() {
    let mut config = two_node_config();
    config.servers[1].address = "192.168.1.5".to_string();
    assert_eq!(
        config.valid(),
        Err(ConfigError::AddressOutOfNetwork(
            "b".to_string(),
            "10.0.0.0/24".to_string()
        ))
    );
}

#[test]
fn accepts_an_ipv6_declaration() {
    let config = Config {
        network: "fd00::/64".to_string(),
        mtu: 1420,
        servers: vec![
            server("a", "fd00::1", ALICE_PRIV),
            server("b", "fd00::2", BOB_PRIV),
        ],
        ..Default::default()
    };
    assert_eq!(config.valid(), Ok(()));
}

#[test]
fn rejects_ipv6_address_outside_network() {
    let config = Config {
        network: "fd00::/64".to_string(),
        mtu: 1420,
        servers: vec![
            server("a", "fd00::1", ALICE_PRIV),
            server("b", "fe80::2", BOB_PRIV),
        ],
        ..Default::default()
    };
    assert_eq!(
        config.valid(),
        Err(ConfigError::AddressOutOfNetwork(
            "b".to_string(),
            "fd00::/64".to_string()
        ))
    );
}

#[test]
fn rejects_duplicate_private_key() {
    let mut config = two_node_config();
    config.servers[1].private_key = ALICE_PRIV.to_string();
    assert_eq!(
        config.valid(),
        Err(ConfigError::DuplicatePrivateKey("b".to_string()))
    );
}

#[test]
fn duplicate_key_reported_before_derivation() {
    // Both keys are the same undecodable text: the duplicate is reported,
    // never the encoding.
    let mut config = two_node_config();
    config.servers[0].private_key = "!!!".to_string();
    config.servers[1].private_key = "!!!".to_string();
    assert_eq!(
        config.prepare().unwrap_err(),
        ConfigError::DuplicatePrivateKey("b".to_string())
    );
}

#[test]
fn rejects_route_via_owner() {
    let mut config = two_node_config();
    config.servers[0].routes = Some(vec![Route {
        via: "a".to_string(),
        routes: vec![],
        endpoint: None,
        persistent_keepalive: None,
    }]);
    assert_eq!(
        config.valid(),
        Err(ConfigError::UnknownRouteTarget("a".to_string(), "a".to_string()))
    );
}

#[test]
fn rejects_route_via_unknown_node() {
    let mut config = two_node_config();
    config.servers[0].routes = Some(vec![Route {
        via: "ghost".to_string(),
        routes: vec![],
        endpoint: None,
        persistent_keepalive: None,
    }]);
    assert_eq!(
        config.valid(),
        Err(ConfigError::UnknownRouteTarget("a".to_string(), "ghost".to_string()))
    );
}

#[test]
fn prepare_rejects_undecodable_key() {
    let mut config = two_node_config();
    config.servers[1].private_key = "!!!".to_string();
    assert_eq!(
        config.prepare().unwrap_err(),
        ConfigError::InvalidKeyEncoding("b".to_string())
    );
}

#[test]
fn prepare_fills_network_and_public_key() {
    let prepared = two_node_config().prepare().unwrap();
    assert_eq!(prepared.servers[0].network, "10.0.0.1/24");
    assert_eq!(prepared.servers[1].network, "10.0.0.2/24");
    assert_eq!(prepared.servers[0].public_key, ALICE_PUB);
    assert_eq!(prepared.servers[1].public_key, BOB_PUB);
    // Everything declared is untouched.
    assert_eq!(prepared.servers[0].address, "10.0.0.1");
    assert_eq!(prepared.network, "10.0.0.0/24");
}

#[test]
fn no_routes_without_include_all_yields_no_peers() {
    let prepared = two_node_config().prepare().unwrap();
    let resolved = WireguardConfig::resolve(&prepared, "a", false).unwrap();
    assert_eq!(resolved.peers, vec![]);
    assert_eq!(resolved.interface.node, "a");
}

#[test]
fn interface_applies_override_chain() {
    let mut config = two_node_config();
    config.mtu = 1280;
    config.pre_up = Some("global-up".to_string());
    config.post_down = Some("global-down".to_string());
    config.servers[0].pre_up = Some("node-up".to_string());
    config.servers[0].listen_port = Some(51820);
    let prepared = config.prepare().unwrap();

    let resolved = WireguardConfig::resolve(&prepared, "a", false).unwrap();
    assert_eq!(resolved.interface.node, "a");
    assert_eq!(resolved.interface.network, "10.0.0.1/24");
    assert_eq!(resolved.interface.listen_port, 51820);
    assert_eq!(resolved.interface.mtu, 1280);
    // Node override wins; global fills the gaps; absent stays absent.
    assert_eq!(resolved.interface.pre_up, Some("node-up".to_string()));
    assert_eq!(resolved.interface.post_down, Some("global-down".to_string()));
    assert_eq!(resolved.interface.pre_down, None);

    let other = WireguardConfig::resolve(&prepared, "b", false).unwrap();
    // No listen port declared: written as zero.
    assert_eq!(other.interface.listen_port, 0);
    assert_eq!(other.interface.pre_up, Some("global-up".to_string()));
}

#[test]
fn allowed_ips_concatenate_address_then_ranges() {
    let mut config = two_node_config();
    config.servers[0].routes = Some(vec![Route {
        via: "b".to_string(),
        routes: vec!["10.0.0.2/32".to_string(), "192.168.1.0/24".to_string()],
        endpoint: None,
        persistent_keepalive: None,
    }]);
    let prepared = config.prepare().unwrap();
    let resolved = WireguardConfig::resolve(&prepared, "a", false).unwrap();
    assert_eq!(resolved.peers.len(), 1);
    let peer = &resolved.peers[0];
    assert_eq!(peer.node, "b");
    assert_eq!(peer.public_key, BOB_PUB);
    assert_eq!(
        peer.allowed_ips,
        vec![
            "10.0.0.2".to_string(),
            "10.0.0.2/32".to_string(),
            "192.168.1.0/24".to_string()
        ]
    );
}

#[test]
fn route_overrides_win_over_peer_defaults() {
    let mut config = two_node_config();
    config.persistent_keepalive = Some(99);
    config.servers[1].public_address = Some("peer.example:51820".to_string());
    config.servers[1].persistent_keepalive = Some(25);
    config.servers[0].routes = Some(vec![
        Route {
            via: "b".to_string(),
            routes: vec![],
            endpoint: Some("override.example:1".to_string()),
            persistent_keepalive: Some(7),
        },
    ]);
    let prepared = config.prepare().unwrap();
    let resolved = WireguardConfig::resolve(&prepared, "a", false).unwrap();
    let peer = &resolved.peers[0];
    assert_eq!(peer.endpoint, Some("override.example:1".to_string()));
    assert_eq!(peer.persistent_keepalive, Some(7));
}

#[test]
fn route_without_overrides_falls_back_to_peer_values() {
    let mut config = two_node_config();
    config.persistent_keepalive = Some(99);
    config.servers[1].public_address = Some("peer.example:51820".to_string());
    config.servers[1].persistent_keepalive = Some(25);
    config.servers[0].routes = Some(vec![Route {
        via: "b".to_string(),
        routes: vec![],
        endpoint: None,
        persistent_keepalive: None,
    }]);
    let prepared = config.prepare().unwrap();
    let resolved = WireguardConfig::resolve(&prepared, "a", false).unwrap();
    let peer = &resolved.peers[0];
    // The peer's own values; the global keepalive never reaches a peer entry.
    assert_eq!(peer.endpoint, Some("peer.example:51820".to_string()));
    assert_eq!(peer.persistent_keepalive, Some(25));
}

#[test]
fn include_all_keeps_route_peers_first_and_deduplicates() {
    let mut config = Config {
        network: "10.0.0.0/24".to_string(),
        mtu: 1420,
        persistent_keepalive: Some(99),
        servers: vec![
            server("a", "10.0.0.1", ALICE_PRIV),
            server("b", "10.0.0.2", BOB_PRIV),
            server("c", "10.0.0.3", "Y2NjY2NjY2NjY2NjY2NjY2NjY2NjY2NjY2NjY2NjY2M="),
        ],
        ..Default::default()
    };
    config.servers[2].public_address = Some("c.example:51820".to_string());
    config.servers[2].persistent_keepalive = Some(11);
    config.servers[0].routes = Some(vec![Route {
        via: "b".to_string(),
        routes: vec!["172.16.0.0/16".to_string()],
        endpoint: None,
        persistent_keepalive: None,
    }]);
    let prepared = config.prepare().unwrap();
    let resolved = WireguardConfig::resolve(&prepared, "a", true).unwrap();

    // Route-sourced peer first, then the remaining node in declaration
    // order; the route target is not added twice; the requested node is
    // absent.
    assert_eq!(resolved.peers.len(), 2);
    assert_eq!(resolved.peers[0].node, "b");
    assert_eq!(
        resolved.peers[0].allowed_ips,
        vec!["10.0.0.2".to_string(), "172.16.0.0/16".to_string()]
    );
    assert_eq!(resolved.peers[1].node, "c");
    // An include-all peer carries only the node's own address, its public
    // address as endpoint, and its own keepalive, never the global one.
    assert_eq!(resolved.peers[1].allowed_ips, vec!["10.0.0.3".to_string()]);
    assert_eq!(resolved.peers[1].endpoint, Some("c.example:51820".to_string()));
    assert_eq!(resolved.peers[1].persistent_keepalive, Some(11));
}

#[test]
fn duplicate_routes_to_one_target_stay_separate() {
    let mut config = two_node_config();
    config.servers[0].routes = Some(vec![
        Route {
            via: "b".to_string(),
            routes: vec!["172.16.0.0/16".to_string()],
            endpoint: None,
            persistent_keepalive: None,
        },
        Route {
            via: "b".to_string(),
            routes: vec!["172.17.0.0/16".to_string()],
            endpoint: None,
            persistent_keepalive: None,
        },
    ]);
    let prepared = config.prepare().unwrap();
    // Two route entries to the same target give two peer entries; include-all
    // adds nothing more for that target.
    let resolved = WireguardConfig::resolve(&prepared, "a", true).unwrap();
    assert_eq!(resolved.peers.len(), 2);
    assert_eq!(resolved.peers[0].node, "b");
    assert_eq!(resolved.peers[1].node, "b");
    assert_eq!(
        resolved.peers[1].allowed_ips,
        vec!["10.0.0.2".to_string(), "172.17.0.0/16".to_string()]
    );
}

#[test]
fn unknown_node_is_reported() {
    let prepared = two_node_config().prepare().unwrap();
    let err = WireguardConfig::resolve(&prepared, "ghost", true).unwrap_err();
    assert_eq!(err, ConfigError::NodeNotFound("ghost".to_string()));
}

#[test]
fn format_requests_are_read_exactly() {
    assert_eq!(Format::from_str("conf"), Ok(Format::Conf));
    assert_eq!(Format::from_str("c"), Ok(Format::Conf));
    assert_eq!(Format::from_str("qr"), Ok(Format::Qr));
    assert_eq!(Format::from_str("q"), Ok(Format::Qr));
    assert_eq!(
        Format::from_str("svg"),
        Err(ConfigError::InvalidFormat("svg".to_string()))
    );
    assert_eq!(Format::default(), Format::Conf);
}

#[test]
fn decimal_text_is_exact() {
    assert_eq!(u8_to_dec(0), "0");
    assert_eq!(u8_to_dec(7), "7");
    assert_eq!(u8_to_dec(24), "24");
    assert_eq!(u8_to_dec(100), "100");
    assert_eq!(u8_to_dec(255), "255");
}

#[test]
fn every_declared_node_resolves() {
    let mut config = Config {
        network: "10.0.0.0/24".to_string(),
        mtu: 1420,
        servers: vec![
            server("a", "10.0.0.1", ALICE_PRIV),
            server("b", "10.0.0.2", BOB_PRIV),
            server("c", "10.0.0.3", "Y2NjY2NjY2NjY2NjY2NjY2NjY2NjY2NjY2NjY2NjY2M="),
        ],
        ..Default::default()
    };
    config.servers[1].routes = Some(vec![Route {
        via: "c".to_string(),
        routes: vec![],
        endpoint: None,
        persistent_keepalive: None,
    }]);
    let prepared = config.prepare().unwrap();
    for name in ["a", "b", "c"] {
        let resolved = WireguardConfig::resolve(&prepared, name, true).unwrap();
        assert_eq!(resolved.interface.node, name);
    }
}
