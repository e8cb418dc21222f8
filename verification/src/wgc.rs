use vstd::prelude::*;

use crate::config::{server_routes, Config, ConfigView, Route, RouteView, Server, ServerView};
use crate::errors::{ConfigError, ConfigErrorView};

verus! {

// ---------------------------------------------------------------------------
// The resolved configuration handed to the renderer.
// ---------------------------------------------------------------------------

/// A node's resolved tunnel configuration: its own interface parameters and
/// the peers it must connect to.
#[derive(Debug, Clone, PartialEq, Eq)]
pub struct WireguardConfig {
    pub interface: Interface,
    pub peers: Vec<Peer>,
}

/// The requested node's own interface parameters, with the global defaults
/// applied: each lifecycle hook is the node's override where present, else
/// the global value; the MTU always comes from the global declaration.
#[derive(Debug, Clone, PartialEq, Eq)]
pub struct Interface {
    pub node: String,
    pub network: String,
    pub listen_port: u16,
    pub private_key: String,
    pub mtu: u16,
    pub pre_up: Option<String>,
    pub pre_down: Option<String>,
    pub post_up: Option<String>,
    pub post_down: Option<String>,
}

/// One peer the requested node must connect to: the peer's identity, the
/// address ranges reachable through it, and the effective endpoint and
/// keepalive after override resolution.
#[derive(Debug, Clone, PartialEq, Eq)]
pub struct Peer {
    pub node: String,
    pub public_key: String,
    pub allowed_ips: Vec<String>,
    pub endpoint: Option<String>,
    pub persistent_keepalive: Option<u16>,
}

#[verifier::ext_equal]
pub ghost struct InterfaceView {
    pub node: Seq<char>,
    pub network: Seq<char>,
    pub listen_port: u16,
    pub private_key: Seq<char>,
    pub mtu: u16,
    pub pre_up: Option<Seq<char>>,
    pub pre_down: Option<Seq<char>>,
    pub post_up: Option<Seq<char>>,
    pub post_down: Option<Seq<char>>,
}

#[verifier::ext_equal]
pub ghost struct PeerView {
    pub node: Seq<char>,
    pub public_key: Seq<char>,
    pub allowed_ips: Seq<Seq<char>>,
    pub endpoint: Option<Seq<char>>,
    pub persistent_keepalive: Option<u16>,
}

#[verifier::ext_equal]
pub ghost struct WireguardConfigView {
    pub interface: InterfaceView,
    pub peers: Seq<PeerView>,
}

impl View for Interface {
    type V = InterfaceView;

    open spec fn view(&self) -> InterfaceView {
        InterfaceView {
            node: self.node@,
            network: self.network@,
            listen_port: self.listen_port,
            private_key: self.private_key@,
            mtu: self.mtu,
            pre_up: self.pre_up.deep_view(),
            pre_down: self.pre_down.deep_view(),
            post_up: self.post_up.deep_view(),
            post_down: self.post_down.deep_view(),
        }
    }
}

impl DeepView for Peer {
    type V = PeerView;

    open spec fn deep_view(&self) -> PeerView {
        PeerView {
            node: self.node@,
            public_key: self.public_key@,
            allowed_ips: self.allowed_ips.deep_view(),
            endpoint: self.endpoint.deep_view(),
            persistent_keepalive: self.persistent_keepalive,
        }
    }
}

impl View for Peer {
    type V = PeerView;

    open spec fn view(&self) -> PeerView {
        self.deep_view()
    }
}

impl View for WireguardConfig {
    type V = WireguardConfigView;

    open spec fn view(&self) -> WireguardConfigView {
        WireguardConfigView { interface: self.interface@, peers: self.peers.deep_view() }
    }
}

// ---------------------------------------------------------------------------
// Resolution, as a mathematical function of the declaration.
// ---------------------------------------------------------------------------

/// Override-chain resolution: the override where present, else the fallback.
pub open spec fn opt_or<T>(a: Option<T>, b: Option<T>) -> Option<T> {
    if a is Some {
        a
    } else {
        b
    }
}

pub open spec fn find_node_from(ss: Seq<ServerView>, name: Seq<char>, i: int) -> Option<int>
    decreases ss.len() - i,
{
    if i < 0 || i >= ss.len() {
        None
    } else if ss[i].node == name {
        Some(i)
    } else {
        find_node_from(ss, name, i + 1)
    }
}

/// The index of the first declared node with the given name.
pub open spec fn find_node(ss: Seq<ServerView>, name: Seq<char>) -> Option<int> {
    find_node_from(ss, name, 0)
}

pub proof fn lemma_find_node_from(ss: Seq<ServerView>, name: Seq<char>, i: int)
    requires
        0 <= i <= ss.len(),
    ensures
        match find_node_from(ss, name, i) {
            None => forall|k: int| i <= k < ss.len() ==> ss[k].node != name,
            Some(j) => i <= j < ss.len() && ss[j].node == name && (forall|k: int|
                i <= k < j ==> ss[k].node != name),
        },
    decreases ss.len() - i,
{
    if i < ss.len() && ss[i].node != name {
        lemma_find_node_from(ss, name, i + 1);
    }
}

/// Every route of every node points at a findable target.
pub open spec fn routes_resolvable(c: ConfigView) -> bool {
    forall|i: int, k: int|
        0 <= i < c.servers.len() && 0 <= k < server_routes(#[trigger] c.servers[i]).len()
            ==> find_node(c.servers, (#[trigger] server_routes(c.servers[i])[k]).via) is Some
}

/// The requested node's interface: fields copied from the node, each hook
/// resolved node-override-else-global, the MTU global, a missing listen port
/// read as 0.
pub open spec fn spec_interface(s: ServerView, c: ConfigView) -> InterfaceView {
    InterfaceView {
        node: s.node,
        network: s.network,
        listen_port: match s.listen_port {
            Some(p) => p,
            None => 0,
        },
        private_key: s.private_key,
        mtu: c.mtu,
        pre_up: opt_or(s.pre_up, c.pre_up),
        pre_down: opt_or(s.pre_down, c.pre_down),
        post_up: opt_or(s.post_up, c.post_up),
        post_down: opt_or(s.post_down, c.post_down),
    }
}

/// The peer entry for a node reached without a route: reachable ranges are
/// exactly the node's own address, the endpoint is its public address, the
/// keepalive its own override only.
pub open spec fn spec_peer_of_server(s: ServerView) -> PeerView {
    PeerView {
        node: s.node,
        public_key: s.public_key,
        allowed_ips: seq![s.address],
        endpoint: s.public_address,
        persistent_keepalive: s.persistent_keepalive,
    }
}

/// The peer entry for a route: the target's own address followed by the
/// route's declared ranges; the endpoint is the route's override else the
/// target's public address; the keepalive the route's override else the
/// target's own.
pub open spec fn spec_peer_of_route(r: RouteView, c: ConfigView) -> PeerView {
    let s = c.servers[find_node(c.servers, r.via).unwrap()];
    PeerView {
        node: s.node,
        public_key: s.public_key,
        allowed_ips: seq![s.address] + r.routes,
        endpoint: opt_or(r.endpoint, s.public_address),
        persistent_keepalive: opt_or(r.persistent_keepalive, s.persistent_keepalive),
    }
}

/// One peer per route of the node, in route order.
pub open spec fn spec_route_peers(s: ServerView, c: ConfigView) -> Seq<PeerView> {
    server_routes(s).map(|k: int, r: RouteView| spec_peer_of_route(r, c))
}

/// Whether some peer in the list already carries the given node name.
pub open spec fn has_peer_named(ps: Seq<PeerView>, name: Seq<char>) -> bool {
    exists|j: int| 0 <= j < ps.len() && ps[j].node == name
}

/// The peer list after walking the nodes from position `i` in declaration
/// order: a node is appended unless it is the requested node itself or a
/// peer with its name is already present.
pub open spec fn spec_all_peers(
    c: ConfigView,
    name: Seq<char>,
    acc: Seq<PeerView>,
    i: int,
) -> Seq<PeerView>
    decreases c.servers.len() - i,
{
    if i < 0 || i >= c.servers.len() {
        acc
    } else {
        let s = c.servers[i];
        if s.node == name || has_peer_named(acc, s.node) {
            spec_all_peers(c, name, acc, i + 1)
        } else {
            spec_all_peers(c, name, acc.push(spec_peer_of_server(s)), i + 1)
        }
    }
}

/// The resolved peer list of the requested node: its route peers first, then,
/// when everything is included, the remaining nodes in declaration order.
pub open spec fn spec_peers(c: ConfigView, name: Seq<char>, include_all: bool) -> Seq<PeerView> {
    let s = c.servers[find_node(c.servers, name).unwrap()];
    let rp = spec_route_peers(s, c);
    if include_all {
        spec_all_peers(c, name, rp, 0)
    } else {
        rp
    }
}

/// The whole resolved configuration of the requested node.
pub open spec fn spec_resolve(
    c: ConfigView,
    name: Seq<char>,
    include_all: bool,
) -> WireguardConfigView {
    WireguardConfigView {
        interface: spec_interface(c.servers[find_node(c.servers, name).unwrap()], c),
        peers: spec_peers(c, name, include_all),
    }
}

// ---------------------------------------------------------------------------
// The resolver.
// ---------------------------------------------------------------------------

fn opt_string_or(a: &Option<String>, b: &Option<String>) -> (r: Option<String>)
    ensures
        r.deep_view() == opt_or(a.deep_view(), b.deep_view()),
{
    match a {
        Some(s) => Some(s.clone()),
        None => match b {
            Some(s) => Some(s.clone()),
            None => None,
        },
    }
}

fn opt_u16_or(a: Option<u16>, b: Option<u16>) -> (r: Option<u16>)
    ensures
        r == opt_or(a, b),
{
    match a {
        Some(v) => Some(v),
        None => b,
    }
}

/// The index of the first declared node with the given name, if any.
pub fn find_server(servers: &Vec<Server>, name: &String) -> (r: Option<usize>)
    ensures
        match r {
            Some(i) => find_node(servers.deep_view(), name@) == Some(i as int),
            None => find_node(servers.deep_view(), name@) is None,
        },
{
    let ghost ss = servers.deep_view();
    let n = servers.len();
    let mut i: usize = 0;
    while i < n
        invariant
            n == servers@.len(),
            ss == servers.deep_view(),
            i <= n,
            find_node_from(ss, name@, i as int) == find_node(ss, name@),
        decreases n - i,
    {
        if servers[i].node == *name {
            proof {
                assert(ss[i as int].node == name@);
                assert(find_node_from(ss, name@, i as int) == Some(i as int));
            }
            return Some(i);
        }
        i = i + 1;
    }
    None
}

fn peers_contain(peers: &Vec<Peer>, name: &String) -> (r: bool)
    ensures
        r == has_peer_named(peers.deep_view(), name@),
{
    let ghost ps = peers.deep_view();
    let n = peers.len();
    let mut j: usize = 0;
    while j < n
        invariant
            n == peers@.len(),
            ps == peers.deep_view(),
            j <= n,
            forall|k: int| 0 <= k < j as int ==> ps[k].node != name@,
        decreases n - j,
    {
        if peers[j].node == *name {
            proof {
                assert(ps[j as int].node == name@);
            }
            return true;
        }
        j = j + 1;
    }
    false
}

impl Interface {
    /// Builds the requested node's interface, resolving each lifecycle hook
    /// node-override-else-global and taking the MTU from the global
    /// declaration.
    pub fn new(server: &Server, cfg: &Config) -> (r: Interface)
        ensures
            r@ == spec_interface(server@, cfg@),
    {
        let r = Interface {
            node: server.node.clone(),
            network: server.network.clone(),
            listen_port: match server.listen_port {
                Some(p) => p,
                None => 0,
            },
            private_key: server.private_key.clone(),
            mtu: cfg.mtu,
            pre_up: opt_string_or(&server.pre_up, &cfg.pre_up),
            pre_down: opt_string_or(&server.pre_down, &cfg.pre_down),
            post_up: opt_string_or(&server.post_up, &cfg.post_up),
            post_down: opt_string_or(&server.post_down, &cfg.post_down),
        };
        proof {
            assert(r@ =~= spec_interface(server@, cfg@));
        }
        r
    }
}

impl Peer {
    /// Builds the peer entry for a node reached without a route.
    pub fn from_server(server: &Server) -> (r: Peer)
        ensures
            r@ == spec_peer_of_server(server@),
    {
        let mut allowed_ips: Vec<String> = Vec::new();
        allowed_ips.push(server.address.clone());
        let r = Peer {
            node: server.node.clone(),
            public_key: server.public_key.clone(),
            allowed_ips,
            endpoint: match &server.public_address {
                Some(s) => Some(s.clone()),
                None => None,
            },
            persistent_keepalive: server.persistent_keepalive,
        };
        proof {
            assert(r@.allowed_ips =~= seq![server@.address]);
            assert(r@ =~= spec_peer_of_server(server@));
        }
        r
    }

    /// Builds the peer entry for a route: the target node's address first,
    /// then the route's declared ranges, with the route's overrides winning
    /// over the target's own endpoint and keepalive.
    pub fn from_route(route: &Route, cfg: &Config) -> (r: Peer)
        requires
            find_node(cfg@.servers, route@.via) is Some,
        ensures
            r@ == spec_peer_of_route(route@, cfg@),
    {
        let idx = match find_server(&cfg.servers, &route.via) {
            Some(i) => i,
            None => {
                proof {
                    assert(false);
                }
                0
            },
        };
        proof {
            assert(cfg@.servers == cfg.servers.deep_view());
            lemma_find_node_from(cfg@.servers, route@.via, 0);
        }
        let server = &cfg.servers[idx];
        let ghost sv = cfg@.servers[idx as int];
        proof {
            assert(server.deep_view() == sv);
        }
        let mut allowed_ips: Vec<String> = Vec::new();
        allowed_ips.push(server.address.clone());
        let m = route.routes.len();
        let mut k: usize = 0;
        while k < m
            invariant
                m == route.routes@.len(),
                k <= m,
                sv == cfg@.servers[idx as int],
                server == cfg.servers@[idx as int],
                allowed_ips@.len() == k as int + 1,
                allowed_ips@[0]@ == sv.address,
                forall|j: int| 0 <= j < k as int ==> allowed_ips@[j + 1]@ == route.routes@[j]@,
            decreases m - k,
        {
            allowed_ips.push(route.routes[k].clone());
            k = k + 1;
        }
        proof {
            assert(allowed_ips.deep_view() =~= seq![sv.address] + route@.routes);
        }
        let r = Peer {
            node: server.node.clone(),
            public_key: server.public_key.clone(),
            allowed_ips,
            endpoint: opt_string_or(&route.endpoint, &server.public_address),
            persistent_keepalive: opt_u16_or(
                route.persistent_keepalive,
                server.persistent_keepalive,
            ),
        };
        proof {
            assert(r@ =~= spec_peer_of_route(route@, cfg@));
        }
        r
    }
}

impl WireguardConfig {
    /// Resolves the named node against a prepared declaration whose routes
    /// all point at declared targets. The node must exist; [`Self::resolve`]
    /// reports a missing node as an error instead.
    pub fn new(config: &Config, node: &str, include_all: bool) -> (r: WireguardConfig)
        requires
            routes_resolvable(config@),
            find_node(config@.servers, node@) is Some,
        ensures
            r@ == spec_resolve(config@, node@, include_all),
    {
        let ghost cv = config@;
        let node_s: String = node.to_owned();
        let idx = match find_server(&config.servers, &node_s) {
            Some(i) => i,
            None => {
                proof {
                    assert(false);
                }
                0
            },
        };
        proof {
            assert(cv.servers == config.servers.deep_view());
            lemma_find_node_from(cv.servers, node@, 0);
        }
        let server = &config.servers[idx];
        let ghost sv = cv.servers[idx as int];
        proof {
            assert(server.deep_view() == sv);
        }
        let interface = Interface::new(server, config);
        let ghost rp = spec_route_peers(sv, cv);
        let mut peers: Vec<Peer> = Vec::new();
        match &server.routes {
            None => {
                proof {
                    assert(server_routes(sv) =~= Seq::<RouteView>::empty());
                    assert(peers.deep_view() =~= rp);
                }
            },
            Some(routes) => {
                proof {
                    assert(server_routes(sv) == routes.deep_view());
                }
                let m = routes.len();
                let mut k: usize = 0;
                while k < m
                    invariant
                        cv == config@,
                        routes_resolvable(cv),
                        idx < cv.servers.len(),
                        sv == cv.servers[idx as int],
                        server == config.servers@[idx as int],
                        server_routes(sv) == routes.deep_view(),
                        m == routes@.len(),
                        k <= m,
                        rp == spec_route_peers(sv, cv),
                        peers@.len() == k as int,
                        forall|j: int| 0 <= j < k as int ==> peers@[j].deep_view() == rp[j],
                    decreases m - k,
                {
                    let route = &routes[k];
                    proof {
                        assert(route.deep_view() == server_routes(sv)[k as int]);
                        assert(find_node(cv.servers, route@.via) is Some);
                    }
                    let peer = Peer::from_route(route, config);
                    let ghost prev = peers@;
                    peers.push(peer);
                    k = k + 1;
                    proof {
                        assert(peers@ == prev.push(peer));
                        assert(rp[k as int - 1] == spec_peer_of_route(
                            server_routes(sv)[k as int - 1],
                            cv,
                        ));
                    }
                }
                proof {
                    assert(peers.deep_view() =~= rp);
                }
            },
        }
        if include_all {
            let n = config.servers.len();
            let mut i: usize = 0;
            while i < n
                invariant
                    cv == config@,
                    n == config.servers@.len(),
                    node_s@ == node@,
                    i <= n,
                    spec_all_peers(cv, node@, peers.deep_view(), i as int) == spec_all_peers(
                        cv,
                        node@,
                        rp,
                        0,
                    ),
                decreases n - i,
            {
                let s = &config.servers[i];
                let ghost svi = cv.servers[i as int];
                proof {
                    assert(s.deep_view() == svi);
                }
                let is_self = s.node == node_s;
                let present = if is_self {
                    true
                } else {
                    peers_contain(&peers, &s.node)
                };
                if !present {
                    proof {
                        assert(!(svi.node == node@ || has_peer_named(peers.deep_view(), svi.node)));
                    }
                    let peer = Peer::from_server(s);
                    let ghost prev = peers.deep_view();
                    peers.push(peer);
                    proof {
                        assert(peers.deep_view() =~= prev.push(spec_peer_of_server(svi)));
                    }
                } else {
                    proof {
                        assert(svi.node == node@ || has_peer_named(peers.deep_view(), svi.node));
                    }
                }
                i = i + 1;
            }
            proof {
                assert(spec_all_peers(cv, node@, peers.deep_view(), n as int)
                    == peers.deep_view());
            }
        }
        let r = WireguardConfig { interface, peers };
        proof {
            assert(r@ =~= spec_resolve(cv, node@, include_all));
        }
        r
    }

    /// Resolves the named node: fails with `NodeNotFound` exactly when no
    /// declared node carries the requested name, and otherwise returns the
    /// node's resolved configuration.
    pub fn resolve(config: &Config, node: &str, include_all: bool) -> (r: Result<
        WireguardConfig,
        ConfigError,
    >)
        requires
            routes_resolvable(config@),
        ensures
            r is Ok <==> find_node(config@.servers, node@) is Some,
            r matches Ok(w) ==> w@ == spec_resolve(config@, node@, include_all),
            r matches Err(e) ==> e@ == ConfigErrorView::NodeNotFound(node@),
    {
        let node_s: String = node.to_owned();
        match find_server(&config.servers, &node_s) {
            Some(_) => Ok(Self::new(config, node, include_all)),
            None => Err(ConfigError::NodeNotFound(node_s)),
        }
    }
}

// ---------------------------------------------------------------------------
// Laws of the resolver.
// ---------------------------------------------------------------------------

/// Law: when every route of every node has a valid target, every route's
/// `via` can be found by name; in particular a valid declaration's routes
/// all resolve.
pub proof fn lemma_valid_routes_resolvable(c: ConfigView)
    requires
        crate::config::routes_ok(c.servers),
    ensures
        routes_resolvable(c),
{
    assert forall|i: int, k: int|
        0 <= i < c.servers.len() && 0 <= k < server_routes(#[trigger] c.servers[i]).len() implies
        find_node(c.servers, (#[trigger] server_routes(c.servers[i])[k]).via) is Some by {
        assert(crate::config::server_routes_ok(c.servers, c.servers[i]));
        assert(crate::config::route_target_ok(
            c.servers,
            c.servers[i],
            server_routes(c.servers[i])[k],
        ));
        let via = server_routes(c.servers[i])[k].via;
        lemma_find_node_from(c.servers, via, 0);
        if find_node(c.servers, via) is None {
            let j = choose|j: int| 0 <= j < c.servers.len() && c.servers[j].node == via;
            assert(c.servers[j].node != via);
        }
    }
}

/// Law: on a valid declaration, every declared node resolves, and the
/// resolved interface carries exactly the requested node's name.
pub proof fn lemma_resolve_succeeds_for_declared(c: ConfigView, i: int, include_all: bool)
    requires
        crate::config::cfg_valid(c),
        0 <= i < c.servers.len(),
    ensures
        find_node(c.servers, c.servers[i].node) is Some,
        spec_resolve(c, c.servers[i].node, include_all).interface.node == c.servers[i].node,
{
    let name = c.servers[i].node;
    lemma_find_node_from(c.servers, name, 0);
    if find_node(c.servers, name) is None {
        assert(c.servers[i].node != name);
    }
    let j = find_node(c.servers, name).unwrap();
    assert(spec_interface(c.servers[j], c).node == name);
}

/// Law: a node without routes, resolved without include-all, has no peers.
pub proof fn lemma_no_routes_no_peers(c: ConfigView, name: Seq<char>)
    requires
        find_node(c.servers, name) is Some,
        server_routes(c.servers[find_node(c.servers, name).unwrap()]).len() == 0,
    ensures
        spec_resolve(c, name, false).peers.len() == 0,
{
}

/// Law: override resolution for a route-sourced peer. A route's own
/// `endpoint` always wins over the target node's public address, and a
/// route's own keepalive over the target node's keepalive; without an
/// override the target node's own value is used, and there is no further
/// fallback.
pub proof fn lemma_route_overrides_win(r: RouteView, c: ConfigView)
    requires
        find_node(c.servers, r.via) is Some,
    ensures
        ({
            let s = c.servers[find_node(c.servers, r.via).unwrap()];
            let p = spec_peer_of_route(r, c);
            &&& (r.endpoint is Some ==> p.endpoint == r.endpoint)
            &&& (r.endpoint is None ==> p.endpoint == s.public_address)
            &&& (r.persistent_keepalive is Some ==> p.persistent_keepalive
                == r.persistent_keepalive)
            &&& (r.persistent_keepalive is None ==> p.persistent_keepalive
                == s.persistent_keepalive)
        }),
{
}

/// Law: a peer reached without a route takes the node's own public address
/// as its endpoint and the node's own keepalive override, never the global
/// one.
pub proof fn lemma_server_peer_defaults(s: ServerView)
    ensures
        spec_peer_of_server(s).endpoint == s.public_address,
        spec_peer_of_server(s).persistent_keepalive == s.persistent_keepalive,
        spec_peer_of_server(s).allowed_ips == seq![s.address],
{
}

proof fn lemma_all_peers_shape(c: ConfigView, name: Seq<char>, acc: Seq<PeerView>, i: int)
    requires
        0 <= i <= c.servers.len(),
        forall|k: int|
            0 <= k < i ==> c.servers[k].node == name || has_peer_named(
                acc,
                (#[trigger] c.servers[k]).node,
            ),
    ensures
        ({
            let out = spec_all_peers(c, name, acc, i);
            &&& out.len() >= acc.len()
            &&& (forall|k: int| 0 <= k < acc.len() ==> out[k] == acc[k])
            &&& (forall|j: int, k: int|
                acc.len() <= j < out.len() && 0 <= k < j ==> out[j].node != out[k].node)
            &&& (forall|j: int| acc.len() <= j < out.len() ==> out[j].node != name)
            &&& (forall|j: int|
                acc.len() <= j < out.len() ==> (exists|m: int|
                    0 <= m < c.servers.len() && (#[trigger] out[j])
                        == #[trigger] spec_peer_of_server(c.servers[m])))
            &&& (forall|j: int|
                acc.len() <= j < out.len() ==> find_node(c.servers, out[j].node) is Some
                    && find_node(c.servers, out[j].node).unwrap() >= i)
            &&& (forall|j1: int, j2: int|
                acc.len() <= j1 < j2 < out.len() ==> find_node(c.servers, out[j1].node).unwrap()
                    < find_node(c.servers, out[j2].node).unwrap())
        }),
    decreases c.servers.len() - i,
{
    if i == c.servers.len() {
    } else {
        let s = c.servers[i];
        let out = spec_all_peers(c, name, acc, i);
        if s.node == name || has_peer_named(acc, s.node) {
            lemma_all_peers_shape(c, name, acc, i + 1);
            assert forall|j: int|
                acc.len() <= j < out.len() implies find_node(c.servers, out[j].node) is Some
                && find_node(c.servers, out[j].node).unwrap() >= i by {
                assert(find_node(c.servers, out[j].node).unwrap() >= i + 1);
            }
        } else {
            let p = spec_peer_of_server(s);
            let acc2 = acc.push(p);
            assert forall|k: int|
                0 <= k < i + 1 implies c.servers[k].node == name || has_peer_named(
                acc2,
                (#[trigger] c.servers[k]).node,
            ) by {
                if k == i {
                    assert(acc2[acc.len() as int] == p);
                    assert(has_peer_named(acc2, s.node));
                } else {
                    if c.servers[k].node != name {
                        let w = choose|w: int|
                            0 <= w < acc.len() && acc[w].node == c.servers[k].node;
                        assert(acc2[w] == acc[w]);
                        assert(has_peer_named(acc2, c.servers[k].node));
                    }
                }
            }
            lemma_all_peers_shape(c, name, acc2, i + 1);
            // The pushed peer's name occurs first at position i.
            assert forall|k: int| 0 <= k < i implies c.servers[k].node != s.node by {
                if c.servers[k].node == s.node {
                    assert(has_peer_named(acc, s.node));
                }
            }
            lemma_find_node_from(c.servers, s.node, 0);
            match find_node(c.servers, s.node) {
                None => {
                    assert(c.servers[i].node != s.node);
                },
                Some(m) => {
                    if m < i {
                        assert(c.servers[m].node != s.node);
                    }
                    if m > i {
                        assert(c.servers[i].node != s.node);
                    }
                },
            }
            assert(find_node(c.servers, s.node) == Some(i));
            let out2 = spec_all_peers(c, name, acc2, i + 1);
            assert(out == out2);
            assert(out[acc.len() as int] == acc2[acc.len() as int]);
            assert(out[acc.len() as int] == p);
            // Distinctness of the pushed peer from everything before it.
            assert forall|j: int, k: int|
                acc.len() <= j < out.len() && 0 <= k < j implies out[j].node != out[k].node by {
                if j == acc.len() {
                    assert(out[k] == acc[k]);
                    if p.node == acc[k].node {
                        assert(has_peer_named(acc, s.node));
                    }
                } else {
                    assert(acc2.len() <= j < out2.len());
                }
            }
            assert forall|j: int|
                acc.len() <= j < out.len() implies (exists|m: int|
                0 <= m < c.servers.len() && (#[trigger] out[j]) == #[trigger] spec_peer_of_server(
                    c.servers[m],
                )) by {
                if j == acc.len() {
                    assert(out[j] == spec_peer_of_server(c.servers[i]));
                }
            }
            assert forall|j: int|
                acc.len() <= j < out.len() implies find_node(c.servers, out[j].node) is Some
                && find_node(c.servers, out[j].node).unwrap() >= i by {
                if j == acc.len() {
                    assert(find_node(c.servers, out[j].node) == Some(i));
                } else {
                    assert(find_node(c.servers, out[j].node).unwrap() >= i + 1);
                }
            }
            assert forall|j1: int, j2: int|
                acc.len() <= j1 < j2 < out.len() implies find_node(
                c.servers,
                out[j1].node,
            ).unwrap() < find_node(c.servers, out[j2].node).unwrap() by {
                if j1 == acc.len() {
                    assert(find_node(c.servers, out[j1].node) == Some(i));
                    assert(find_node(c.servers, out[j2].node).unwrap() >= i + 1);
                }
            }
        }
    }
}

/// Law: with include-all, the route-derived peers stand unchanged at the
/// front of the peer list; every peer added after them is another declared
/// node, never the requested node, never a node already present by name; no
/// two added peers share a name; and the added peers follow declaration
/// order, each one's node standing later in the declaration than the one
/// before it.
pub proof fn lemma_include_all_structure(c: ConfigView, name: Seq<char>)
    requires
        find_node(c.servers, name) is Some,
    ensures
        ({
            let rp = spec_route_peers(c.servers[find_node(c.servers, name).unwrap()], c);
            let out = spec_peers(c, name, true);
            &&& out.len() >= rp.len()
            &&& (forall|k: int| 0 <= k < rp.len() ==> out[k] == rp[k])
            &&& (forall|j: int, k: int|
                rp.len() <= j < out.len() && 0 <= k < j ==> out[j].node != out[k].node)
            &&& (forall|j: int| rp.len() <= j < out.len() ==> out[j].node != name)
            &&& (forall|j: int|
                rp.len() <= j < out.len() ==> (exists|m: int|
                    0 <= m < c.servers.len() && (#[trigger] out[j])
                        == #[trigger] spec_peer_of_server(c.servers[m])))
            &&& (forall|j1: int, j2: int|
                rp.len() <= j1 < j2 < out.len() ==> find_node(c.servers, out[j1].node).unwrap()
                    < find_node(c.servers, out[j2].node).unwrap())
        }),
{
    let rp = spec_route_peers(c.servers[find_node(c.servers, name).unwrap()], c);
    lemma_all_peers_shape(c, name, rp, 0);
}

} // verus!
