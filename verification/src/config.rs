use vstd::prelude::*;
use vstd::string::StringExecFns;

use crate::errors::{ConfigError, ConfigErrorView};
use crate::keys::{derive_public, key_bytes, spec_public_key};
use crate::net::{addr_in_network, addr_parsed, in_network, net_parsed, parse_address, parse_network};

verus! {

// ---------------------------------------------------------------------------
// The declaration: one network, its nodes, and their routing relationships.
// ---------------------------------------------------------------------------

/// The whole network declaration: the network in `address/prefix` form,
/// global interface parameters, global hook and keepalive defaults, and the
/// member nodes in declaration order.
#[derive(Default, Debug, Clone, PartialEq, Eq)]
pub struct Config {
    pub network: String,
    pub mtu: u16,
    pub pre_up: Option<String>,
    pub pre_down: Option<String>,
    pub post_up: Option<String>,
    pub post_down: Option<String>,
    pub persistent_keepalive: Option<u16>,
    pub servers: Vec<Server>,
}

/// One declared node. `network` and `public_key` are never read from input:
/// they are filled in by [`Config::prepare`] from the node's address and
/// private key.
#[derive(Default, Debug, Clone, PartialEq, Eq)]
pub struct Server {
    pub node: String,
    pub address: String,
    pub network: String,
    pub listen_port: Option<u16>,
    pub dns: Option<String>,
    pub private_key: String,
    pub public_key: String,
    pub public_address: Option<String>,
    pub pre_up: Option<String>,
    pub pre_down: Option<String>,
    pub post_up: Option<String>,
    pub post_down: Option<String>,
    pub persistent_keepalive: Option<u16>,
    pub routes: Option<Vec<Route>>,
}

/// A routing relationship owned by a node: reachability to the listed address
/// ranges is granted through the node named `via`.
#[derive(Default, Debug, Clone, PartialEq, Eq)]
pub struct Route {
    pub via: String,
    pub routes: Vec<String>,
    pub endpoint: Option<String>,
    pub persistent_keepalive: Option<u16>,
}

#[verifier::ext_equal]
pub ghost struct RouteView {
    pub via: Seq<char>,
    pub routes: Seq<Seq<char>>,
    pub endpoint: Option<Seq<char>>,
    pub persistent_keepalive: Option<u16>,
}

#[verifier::ext_equal]
pub ghost struct ServerView {
    pub node: Seq<char>,
    pub address: Seq<char>,
    pub network: Seq<char>,
    pub listen_port: Option<u16>,
    pub dns: Option<Seq<char>>,
    pub private_key: Seq<char>,
    pub public_key: Seq<char>,
    pub public_address: Option<Seq<char>>,
    pub pre_up: Option<Seq<char>>,
    pub pre_down: Option<Seq<char>>,
    pub post_up: Option<Seq<char>>,
    pub post_down: Option<Seq<char>>,
    pub persistent_keepalive: Option<u16>,
    pub routes: Option<Seq<RouteView>>,
}

#[verifier::ext_equal]
pub ghost struct ConfigView {
    pub network: Seq<char>,
    pub mtu: u16,
    pub pre_up: Option<Seq<char>>,
    pub pre_down: Option<Seq<char>>,
    pub post_up: Option<Seq<char>>,
    pub post_down: Option<Seq<char>>,
    pub persistent_keepalive: Option<u16>,
    pub servers: Seq<ServerView>,
}

impl DeepView for Route {
    type V = RouteView;

    open spec fn deep_view(&self) -> RouteView {
        RouteView {
            via: self.via@,
            routes: self.routes.deep_view(),
            endpoint: self.endpoint.deep_view(),
            persistent_keepalive: self.persistent_keepalive,
        }
    }
}

impl View for Route {
    type V = RouteView;

    open spec fn view(&self) -> RouteView {
        self.deep_view()
    }
}

impl DeepView for Server {
    type V = ServerView;

    open spec fn deep_view(&self) -> ServerView {
        ServerView {
            node: self.node@,
            address: self.address@,
            network: self.network@,
            listen_port: self.listen_port,
            dns: self.dns.deep_view(),
            private_key: self.private_key@,
            public_key: self.public_key@,
            public_address: self.public_address.deep_view(),
            pre_up: self.pre_up.deep_view(),
            pre_down: self.pre_down.deep_view(),
            post_up: self.post_up.deep_view(),
            post_down: self.post_down.deep_view(),
            persistent_keepalive: self.persistent_keepalive,
            routes: self.routes.deep_view(),
        }
    }
}

impl View for Server {
    type V = ServerView;

    open spec fn view(&self) -> ServerView {
        self.deep_view()
    }
}

impl DeepView for Config {
    type V = ConfigView;

    open spec fn deep_view(&self) -> ConfigView {
        ConfigView {
            network: self.network@,
            mtu: self.mtu,
            pre_up: self.pre_up.deep_view(),
            pre_down: self.pre_down.deep_view(),
            post_up: self.post_up.deep_view(),
            post_down: self.post_down.deep_view(),
            persistent_keepalive: self.persistent_keepalive,
            servers: self.servers.deep_view(),
        }
    }
}

impl View for Config {
    type V = ConfigView;

    open spec fn view(&self) -> ConfigView {
        self.deep_view()
    }
}

/// A node's routes, with a missing route list read as an empty one.
pub open spec fn server_routes(s: ServerView) -> Seq<RouteView> {
    match s.routes {
        Some(rs) => rs,
        None => Seq::empty(),
    }
}

// ---------------------------------------------------------------------------
// The validated declaration, check by check.
// ---------------------------------------------------------------------------

/// The declared network is present and parses as an address with a prefix.
pub open spec fn network_ok(c: ConfigView) -> bool {
    c.network.len() > 0 && net_parsed(c.network) is Some
}

/// The node's address parses as a host address.
pub open spec fn addr_ok(s: ServerView) -> bool {
    addr_parsed(s.address) is Some
}

/// No earlier node has the same parsed address as node `j`.
pub open spec fn addr_fresh(ss: Seq<ServerView>, j: int) -> bool {
    forall|i: int| 0 <= i < j ==> addr_parsed(ss[i].address) != addr_parsed(ss[j].address)
}

/// The node's parsed address lies inside the parsed network.
pub open spec fn addr_inside(s: ServerView, net: (bool, u128, u8)) -> bool {
    in_network(addr_parsed(s.address).unwrap(), net)
}

/// No earlier node has the same private key text as node `j`.
pub open spec fn key_fresh(ss: Seq<ServerView>, j: int) -> bool {
    forall|i: int| 0 <= i < j ==> ss[i].private_key != ss[j].private_key
}

/// The route's `via` names a declared node other than the owner.
pub open spec fn route_target_ok(ss: Seq<ServerView>, owner: ServerView, r: RouteView) -> bool {
    r.via != owner.node && exists|j: int| 0 <= j < ss.len() && ss[j].node == r.via
}

/// Every route of `owner` has a resolvable target.
pub open spec fn server_routes_ok(ss: Seq<ServerView>, owner: ServerView) -> bool {
    forall|k: int| 0 <= k < server_routes(owner).len() ==> route_target_ok(
        ss,
        owner,
        server_routes(owner)[k],
    )
}

pub open spec fn all_addrs_ok(ss: Seq<ServerView>) -> bool {
    forall|i: int| 0 <= i < ss.len() ==> addr_ok(ss[i])
}

pub open spec fn addrs_distinct(ss: Seq<ServerView>) -> bool {
    forall|j: int| 0 <= j < ss.len() ==> addr_fresh(ss, j)
}

pub open spec fn all_inside(ss: Seq<ServerView>, net: (bool, u128, u8)) -> bool {
    forall|i: int| 0 <= i < ss.len() ==> addr_inside(ss[i], net)
}

pub open spec fn keys_distinct(ss: Seq<ServerView>) -> bool {
    forall|j: int| 0 <= j < ss.len() ==> key_fresh(ss, j)
}

pub open spec fn routes_ok(ss: Seq<ServerView>) -> bool {
    forall|i: int| 0 <= i < ss.len() ==> server_routes_ok(ss, ss[i])
}

/// The whole declaration is valid: every structural and referential check
/// holds.
pub open spec fn cfg_valid(c: ConfigView) -> bool {
    &&& network_ok(c)
    &&& c.servers.len() > 0
    &&& all_addrs_ok(c.servers)
    &&& addrs_distinct(c.servers)
    &&& all_inside(c.servers, net_parsed(c.network).unwrap())
    &&& keys_distinct(c.servers)
    &&& routes_ok(c.servers)
}

// ---------------------------------------------------------------------------
// First violation of each check, for the first-failure error contract.
// ---------------------------------------------------------------------------

pub open spec fn first_bad_addr(ss: Seq<ServerView>, i: int) -> Option<int>
    decreases ss.len() - i,
{
    if i < 0 || i >= ss.len() {
        None
    } else if !addr_ok(ss[i]) {
        Some(i)
    } else {
        first_bad_addr(ss, i + 1)
    }
}

pub open spec fn first_dup_addr(ss: Seq<ServerView>, i: int) -> Option<int>
    decreases ss.len() - i,
{
    if i < 0 || i >= ss.len() {
        None
    } else if !addr_fresh(ss, i) {
        Some(i)
    } else {
        first_dup_addr(ss, i + 1)
    }
}

pub open spec fn first_outside(ss: Seq<ServerView>, net: (bool, u128, u8), i: int) -> Option<int>
    decreases ss.len() - i,
{
    if i < 0 || i >= ss.len() {
        None
    } else if !addr_inside(ss[i], net) {
        Some(i)
    } else {
        first_outside(ss, net, i + 1)
    }
}

pub open spec fn first_dup_key(ss: Seq<ServerView>, i: int) -> Option<int>
    decreases ss.len() - i,
{
    if i < 0 || i >= ss.len() {
        None
    } else if !key_fresh(ss, i) {
        Some(i)
    } else {
        first_dup_key(ss, i + 1)
    }
}

pub open spec fn first_bad_route_of(ss: Seq<ServerView>, owner: ServerView, k: int) -> Option<int>
    decreases server_routes(owner).len() - k,
{
    if k < 0 || k >= server_routes(owner).len() {
        None
    } else if !route_target_ok(ss, owner, server_routes(owner)[k]) {
        Some(k)
    } else {
        first_bad_route_of(ss, owner, k + 1)
    }
}

pub open spec fn first_bad_route(ss: Seq<ServerView>, i: int) -> Option<(int, int)>
    decreases ss.len() - i,
{
    if i < 0 || i >= ss.len() {
        None
    } else if first_bad_route_of(ss, ss[i], 0) is Some {
        Some((i, first_bad_route_of(ss, ss[i], 0).unwrap()))
    } else {
        first_bad_route(ss, i + 1)
    }
}

/// The first violated check of the declaration, as the validator reports it:
/// `None` exactly when the declaration is valid.
pub open spec fn spec_validate(c: ConfigView) -> Option<ConfigErrorView> {
    if c.network.len() == 0 {
        Some(ConfigErrorView::MissingNetwork)
    } else if net_parsed(c.network) is None {
        Some(ConfigErrorView::MalformedNetwork)
    } else if c.servers.len() == 0 {
        Some(ConfigErrorView::NoNodes)
    } else if first_bad_addr(c.servers, 0) is Some {
        Some(
            ConfigErrorView::MalformedAddress(
                c.servers[first_bad_addr(c.servers, 0).unwrap()].node,
            ),
        )
    } else if first_dup_addr(c.servers, 0) is Some {
        Some(
            ConfigErrorView::DuplicateAddress(c.servers[first_dup_addr(c.servers, 0).unwrap()].node),
        )
    } else if first_outside(c.servers, net_parsed(c.network).unwrap(), 0) is Some {
        Some(
            ConfigErrorView::AddressOutOfNetwork(
                c.servers[first_outside(c.servers, net_parsed(c.network).unwrap(), 0).unwrap()].node,
                c.network,
            ),
        )
    } else if first_dup_key(c.servers, 0) is Some {
        Some(
            ConfigErrorView::DuplicatePrivateKey(
                c.servers[first_dup_key(c.servers, 0).unwrap()].node,
            ),
        )
    } else if first_bad_route(c.servers, 0) is Some {
        Some(
            ConfigErrorView::UnknownRouteTarget(
                c.servers[first_bad_route(c.servers, 0).unwrap().0].node,
                server_routes(c.servers[first_bad_route(c.servers, 0).unwrap().0])[first_bad_route(
                    c.servers,
                    0,
                ).unwrap().1].via,
            ),
        )
    } else {
        None
    }
}

// ---------------------------------------------------------------------------
// Characterisation of the first-violation functions.
// ---------------------------------------------------------------------------

proof fn lemma_first_bad_addr(ss: Seq<ServerView>, i: int)
    requires
        0 <= i <= ss.len(),
    ensures
        match first_bad_addr(ss, i) {
            None => forall|k: int| i <= k < ss.len() ==> addr_ok(ss[k]),
            Some(j) => i <= j < ss.len() && !addr_ok(ss[j]) && (forall|k: int|
                i <= k < j ==> addr_ok(ss[k])),
        },
    decreases ss.len() - i,
{
    if i < ss.len() && addr_ok(ss[i]) {
        lemma_first_bad_addr(ss, i + 1);
    }
}

proof fn lemma_first_dup_addr(ss: Seq<ServerView>, i: int)
    requires
        0 <= i <= ss.len(),
    ensures
        match first_dup_addr(ss, i) {
            None => forall|k: int| i <= k < ss.len() ==> addr_fresh(ss, k),
            Some(j) => i <= j < ss.len() && !addr_fresh(ss, j) && (forall|k: int|
                i <= k < j ==> addr_fresh(ss, k)),
        },
    decreases ss.len() - i,
{
    if i < ss.len() && addr_fresh(ss, i) {
        lemma_first_dup_addr(ss, i + 1);
    }
}

proof fn lemma_first_outside(ss: Seq<ServerView>, net: (bool, u128, u8), i: int)
    requires
        0 <= i <= ss.len(),
    ensures
        match first_outside(ss, net, i) {
            None => forall|k: int| i <= k < ss.len() ==> addr_inside(ss[k], net),
            Some(j) => i <= j < ss.len() && !addr_inside(ss[j], net) && (forall|k: int|
                i <= k < j ==> addr_inside(ss[k], net)),
        },
    decreases ss.len() - i,
{
    if i < ss.len() && addr_inside(ss[i], net) {
        lemma_first_outside(ss, net, i + 1);
    }
}

proof fn lemma_first_dup_key(ss: Seq<ServerView>, i: int)
    requires
        0 <= i <= ss.len(),
    ensures
        match first_dup_key(ss, i) {
            None => forall|k: int| i <= k < ss.len() ==> key_fresh(ss, k),
            Some(j) => i <= j < ss.len() && !key_fresh(ss, j) && (forall|k: int|
                i <= k < j ==> key_fresh(ss, k)),
        },
    decreases ss.len() - i,
{
    if i < ss.len() && key_fresh(ss, i) {
        lemma_first_dup_key(ss, i + 1);
    }
}

proof fn lemma_first_bad_route_of(ss: Seq<ServerView>, owner: ServerView, k: int)
    requires
        0 <= k <= server_routes(owner).len(),
    ensures
        match first_bad_route_of(ss, owner, k) {
            None => forall|m: int|
                k <= m < server_routes(owner).len() ==> route_target_ok(
                    ss,
                    owner,
                    server_routes(owner)[m],
                ),
            Some(j) => k <= j < server_routes(owner).len() && !route_target_ok(
                ss,
                owner,
                server_routes(owner)[j],
            ) && (forall|m: int|
                k <= m < j ==> route_target_ok(ss, owner, server_routes(owner)[m])),
        },
    decreases server_routes(owner).len() - k,
{
    if k < server_routes(owner).len() && route_target_ok(ss, owner, server_routes(owner)[k]) {
        lemma_first_bad_route_of(ss, owner, k + 1);
    }
}

proof fn lemma_first_bad_route(ss: Seq<ServerView>, i: int)
    requires
        0 <= i <= ss.len(),
    ensures
        match first_bad_route(ss, i) {
            None => forall|k: int| i <= k < ss.len() ==> server_routes_ok(ss, ss[k]),
            Some(p) => i <= p.0 < ss.len() && 0 <= p.1 < server_routes(ss[p.0]).len()
                && !route_target_ok(ss, ss[p.0], server_routes(ss[p.0])[p.1]) && (forall|m: int|
                0 <= m < p.1 ==> route_target_ok(ss, ss[p.0], server_routes(ss[p.0])[m])) && (
            forall|k: int| i <= k < p.0 ==> server_routes_ok(ss, ss[k])),
        },
    decreases ss.len() - i,
{
    if i < ss.len() {
        lemma_first_bad_route_of(ss, ss[i], 0);
        if first_bad_route_of(ss, ss[i], 0) is None {
            lemma_first_bad_route(ss, i + 1);
        }
    }
}

/// The validator's first-failure answer is `None` exactly on the valid
/// declarations.
pub proof fn lemma_validate_iff_valid(c: ConfigView)
    ensures
        spec_validate(c) is None <==> cfg_valid(c),
{
    if c.network.len() > 0 && net_parsed(c.network) is Some && c.servers.len() > 0 {
        lemma_first_bad_addr(c.servers, 0);
        lemma_first_dup_addr(c.servers, 0);
        lemma_first_outside(c.servers, net_parsed(c.network).unwrap(), 0);
        lemma_first_dup_key(c.servers, 0);
        lemma_first_bad_route(c.servers, 0);
    }
}

// ---------------------------------------------------------------------------
// Decimal text of small numbers, for the `address/prefix` interface string.
// ---------------------------------------------------------------------------

/// The decimal digit character for a value below ten.
pub open spec fn spec_digit(n: int) -> char {
    ((48 + n) as u8) as char
}

/// The decimal text of a nonnegative number.
pub open spec fn spec_dec(n: int) -> Seq<char>
    decreases n,
{
    if n < 10 {
        seq![spec_digit(n)]
    } else {
        spec_dec(n / 10).push(spec_digit(n % 10))
    }
}

fn digit_str(d: u8) -> (r: &'static str)
    requires
        d < 10,
    ensures
        r@ == seq![spec_digit(d as int)],
{
    proof {
        reveal_strlit("0");
        reveal_strlit("1");
        reveal_strlit("2");
        reveal_strlit("3");
        reveal_strlit("4");
        reveal_strlit("5");
        reveal_strlit("6");
        reveal_strlit("7");
        reveal_strlit("8");
        reveal_strlit("9");
        assert("0"@ =~= seq![spec_digit(0)]);
        assert("1"@ =~= seq![spec_digit(1)]);
        assert("2"@ =~= seq![spec_digit(2)]);
        assert("3"@ =~= seq![spec_digit(3)]);
        assert("4"@ =~= seq![spec_digit(4)]);
        assert("5"@ =~= seq![spec_digit(5)]);
        assert("6"@ =~= seq![spec_digit(6)]);
        assert("7"@ =~= seq![spec_digit(7)]);
        assert("8"@ =~= seq![spec_digit(8)]);
        assert("9"@ =~= seq![spec_digit(9)]);
    }
    match d {
        0 => "0",
        1 => "1",
        2 => "2",
        3 => "3",
        4 => "4",
        5 => "5",
        6 => "6",
        7 => "7",
        8 => "8",
        _ => "9",
    }
}

/// Writes a number up to 255 in decimal.
pub fn u8_to_dec(n: u8) -> (r: String)
    ensures
        r@ == spec_dec(n as int),
{
    if n < 10 {
        let r = digit_str(n).to_owned();
        proof {
            assert(r@ =~= spec_dec(n as int));
        }
        r
    } else if n < 100 {
        let q = n / 10;
        let mut s = digit_str(q).to_owned();
        s.append(digit_str(n % 10));
        proof {
            assert(spec_dec(q as int) == seq![spec_digit(q as int)]);
            assert(s@ =~= spec_dec(n as int));
        }
        s
    } else {
        let q = n / 10;
        let mut s = digit_str(q / 10).to_owned();
        s.append(digit_str(q % 10));
        s.append(digit_str(n % 10));
        proof {
            assert(spec_dec((q / 10) as int) == seq![spec_digit((q / 10) as int)]);
            assert(spec_dec(q as int) =~= seq![spec_digit((q / 10) as int)].push(
                spec_digit((q % 10) as int),
            ));
            assert(s@ =~= spec_dec(n as int));
        }
        s
    }
}

// ---------------------------------------------------------------------------
// View-preserving copies of the declaration's parts.
// ---------------------------------------------------------------------------

fn clone_opt_string(o: &Option<String>) -> (r: Option<String>)
    ensures
        r.deep_view() == o.deep_view(),
{
    match o {
        Some(s) => Some(s.clone()),
        None => None,
    }
}

fn clone_strings(v: &Vec<String>) -> (r: Vec<String>)
    ensures
        r.deep_view() == v.deep_view(),
{
    let mut out: Vec<String> = Vec::new();
    let n = v.len();
    let mut i: usize = 0;
    while i < n
        invariant
            n == v@.len(),
            i <= n,
            out@.len() == i as int,
            forall|k: int| 0 <= k < i as int ==> out.deep_view()[k] == v.deep_view()[k],
        decreases n - i,
    {
        out.push(v[i].clone());
        i = i + 1;
    }
    proof {
        assert(out.deep_view() =~= v.deep_view());
    }
    out
}

fn clone_route(r: &Route) -> (c: Route)
    ensures
        c@ == r@,
{
    let c = Route {
        via: r.via.clone(),
        routes: clone_strings(&r.routes),
        endpoint: clone_opt_string(&r.endpoint),
        persistent_keepalive: r.persistent_keepalive,
    };
    proof {
        assert(c@ =~= r@);
    }
    c
}

fn clone_opt_routes(o: &Option<Vec<Route>>) -> (r: Option<Vec<Route>>)
    ensures
        r.deep_view() == o.deep_view(),
{
    match o {
        Some(v) => {
            let mut out: Vec<Route> = Vec::new();
            let n = v.len();
            let mut i: usize = 0;
            while i < n
                invariant
                    n == v@.len(),
                    i <= n,
                    out@.len() == i as int,
                    forall|k: int| 0 <= k < i as int ==> out.deep_view()[k] == v.deep_view()[k],
                decreases n - i,
            {
                out.push(clone_route(&v[i]));
                i = i + 1;
            }
            proof {
                assert(out.deep_view() =~= v.deep_view());
            }
            Some(out)
        },
        None => None,
    }
}

// ---------------------------------------------------------------------------
// The validator.
// ---------------------------------------------------------------------------

/// Whether some declared node carries the given name.
pub fn node_exists(servers: &Vec<Server>, name: &String) -> (r: bool)
    ensures
        r == exists|j: int|
            0 <= j < servers.deep_view().len() && servers.deep_view()[j].node == name@,
{
    let ghost ss = servers.deep_view();
    let n = servers.len();
    let mut m: usize = 0;
    while m < n
        invariant
            n == servers@.len(),
            ss == servers.deep_view(),
            m <= n,
            forall|k: int| 0 <= k < m as int ==> ss[k].node != name@,
        decreases n - m,
    {
        if servers[m].node == *name {
            proof {
                assert(ss[m as int].node == name@);
            }
            return true;
        }
        m = m + 1;
    }
    false
}

impl Config {
    fn check_addrs(servers: &Vec<Server>) -> (r: Result<Vec<(bool, u128)>, ConfigError>)
        ensures
            r is Ok <==> first_bad_addr(servers.deep_view(), 0) is None,
            r matches Ok(v) ==> v@.len() == servers@.len() && (forall|k: int|
                0 <= k < servers@.len() ==> addr_parsed(servers.deep_view()[k].address) == Some(
                    v@[k],
                )),
            r matches Err(e) ==> (first_bad_addr(servers.deep_view(), 0) matches Some(j)
                && e@ == ConfigErrorView::MalformedAddress(servers.deep_view()[j].node)),
    {
        let ghost ss = servers.deep_view();
        let mut addrs: Vec<(bool, u128)> = Vec::new();
        let n = servers.len();
        let mut i: usize = 0;
        while i < n
            invariant
                n == servers@.len(),
                ss == servers.deep_view(),
                i <= n,
                addrs@.len() == i as int,
                forall|k: int| 0 <= k < i as int ==> addr_parsed(ss[k].address) == Some(addrs@[k]),
                first_bad_addr(ss, i as int) == first_bad_addr(ss, 0),
            decreases n - i,
        {
            let s = &servers[i];
            proof {
                assert(s.address@ == ss[i as int].address);
            }
            match parse_address(s.address.as_str()) {
                Some(a) => {
                    addrs.push(a);
                },
                None => {
                    proof {
                        assert(first_bad_addr(ss, i as int) == Some(i as int));
                    }
                    return Err(ConfigError::MalformedAddress(s.node.clone()));
                },
            }
            i = i + 1;
        }
        Ok(addrs)
    }

    fn check_dup_addrs(servers: &Vec<Server>, addrs: &Vec<(bool, u128)>) -> (r: Result<
        (),
        ConfigError,
    >)
        requires
            addrs@.len() == servers@.len(),
            forall|k: int|
                0 <= k < servers@.len() ==> addr_parsed(servers.deep_view()[k].address) == Some(
                    addrs@[k],
                ),
        ensures
            r is Ok <==> first_dup_addr(servers.deep_view(), 0) is None,
            r matches Err(e) ==> (first_dup_addr(servers.deep_view(), 0) matches Some(j)
                && e@ == ConfigErrorView::DuplicateAddress(servers.deep_view()[j].node)),
    {
        let ghost ss = servers.deep_view();
        let n = servers.len();
        let mut j: usize = 0;
        while j < n
            invariant
                n == servers@.len(),
                ss == servers.deep_view(),
                addrs@.len() == n,
                forall|k: int| 0 <= k < n ==> addr_parsed(ss[k].address) == Some(addrs@[k]),
                j <= n,
                forall|k: int| 0 <= k < j as int ==> addr_fresh(ss, k),
                first_dup_addr(ss, j as int) == first_dup_addr(ss, 0),
            decreases n - j,
        {
            let aj = addrs[j];
            let mut i: usize = 0;
            while i < j
                invariant
                    n == servers@.len(),
                    ss == servers.deep_view(),
                    addrs@.len() == n,
                    forall|k: int| 0 <= k < n ==> addr_parsed(ss[k].address) == Some(addrs@[k]),
                    i <= j < n,
                    aj == addrs@[j as int],
                    forall|k: int| 0 <= k < i as int ==> addrs@[k] != addrs@[j as int],
                    first_dup_addr(ss, j as int) == first_dup_addr(ss, 0),
                decreases j - i,
            {
                let ai = addrs[i];
                if ai.0 == aj.0 && ai.1 == aj.1 {
                    proof {
                        assert(addr_parsed(ss[i as int].address) == addr_parsed(
                            ss[j as int].address,
                        ));
                        assert(!addr_fresh(ss, j as int));
                        assert(first_dup_addr(ss, j as int) == Some(j as int));
                    }
                    return Err(ConfigError::DuplicateAddress(servers[j].node.clone()));
                }
                i = i + 1;
            }
            proof {
                assert forall|k: int| 0 <= k < j as int implies addr_parsed(ss[k].address)
                    != addr_parsed(ss[j as int].address) by {
                    assert(addrs@[k] != addrs@[j as int]);
                }
                assert(addr_fresh(ss, j as int));
            }
            j = j + 1;
        }
        Ok(())
    }

    fn check_inside(
        servers: &Vec<Server>,
        addrs: &Vec<(bool, u128)>,
        net: (bool, u128, u8),
        network: &String,
    ) -> (r: Result<(), ConfigError>)
        requires
            addrs@.len() == servers@.len(),
            forall|k: int|
                0 <= k < servers@.len() ==> addr_parsed(servers.deep_view()[k].address) == Some(
                    addrs@[k],
                ),
            net.0 ==> net.2 <= 128,
            !net.0 ==> net.2 <= 32,
        ensures
            r is Ok <==> first_outside(servers.deep_view(), net, 0) is None,
            r matches Err(e) ==> (first_outside(servers.deep_view(), net, 0) matches Some(j)
                && e@ == ConfigErrorView::AddressOutOfNetwork(
                servers.deep_view()[j].node,
                network@,
            )),
    {
        let ghost ss = servers.deep_view();
        let n = servers.len();
        let mut i: usize = 0;
        while i < n
            invariant
                n == servers@.len(),
                ss == servers.deep_view(),
                addrs@.len() == n,
                forall|k: int| 0 <= k < n ==> addr_parsed(ss[k].address) == Some(addrs@[k]),
                net.0 ==> net.2 <= 128,
                !net.0 ==> net.2 <= 32,
                i <= n,
                forall|k: int| 0 <= k < i as int ==> addr_inside(ss[k], net),
                first_outside(ss, net, i as int) == first_outside(ss, net, 0),
            decreases n - i,
        {
            if !addr_in_network(addrs[i], net) {
                proof {
                    assert(!addr_inside(ss[i as int], net));
                    assert(first_outside(ss, net, i as int) == Some(i as int));
                }
                return Err(
                    ConfigError::AddressOutOfNetwork(servers[i].node.clone(), network.clone()),
                );
            }
            i = i + 1;
        }
        Ok(())
    }

    fn check_dup_keys(servers: &Vec<Server>) -> (r: Result<(), ConfigError>)
        ensures
            r is Ok <==> first_dup_key(servers.deep_view(), 0) is None,
            r matches Err(e) ==> (first_dup_key(servers.deep_view(), 0) matches Some(j)
                && e@ == ConfigErrorView::DuplicatePrivateKey(servers.deep_view()[j].node)),
    {
        let ghost ss = servers.deep_view();
        let n = servers.len();
        let mut j: usize = 0;
        while j < n
            invariant
                n == servers@.len(),
                ss == servers.deep_view(),
                j <= n,
                forall|k: int| 0 <= k < j as int ==> key_fresh(ss, k),
                first_dup_key(ss, j as int) == first_dup_key(ss, 0),
            decreases n - j,
        {
            let mut i: usize = 0;
            while i < j
                invariant
                    n == servers@.len(),
                    ss == servers.deep_view(),
                    i <= j < n,
                    forall|k: int| 0 <= k < i as int ==> ss[k].private_key != ss[j as int].private_key,
                    first_dup_key(ss, j as int) == first_dup_key(ss, 0),
                decreases j - i,
            {
                if servers[i].private_key == servers[j].private_key {
                    proof {
                        assert(ss[i as int].private_key == ss[j as int].private_key);
                        assert(!key_fresh(ss, j as int));
                        assert(first_dup_key(ss, j as int) == Some(j as int));
                    }
                    return Err(ConfigError::DuplicatePrivateKey(servers[j].node.clone()));
                }
                i = i + 1;
            }
            proof {
                assert(key_fresh(ss, j as int));
            }
            j = j + 1;
        }
        Ok(())
    }

    fn check_routes(servers: &Vec<Server>) -> (r: Result<(), ConfigError>)
        ensures
            r is Ok <==> first_bad_route(servers.deep_view(), 0) is None,
            r matches Err(e) ==> (first_bad_route(servers.deep_view(), 0) matches Some(p)
                && e@ == ConfigErrorView::UnknownRouteTarget(
                servers.deep_view()[p.0].node,
                server_routes(servers.deep_view()[p.0])[p.1].via,
            )),
    {
        let ghost ss = servers.deep_view();
        let n = servers.len();
        let mut i: usize = 0;
        while i < n
            invariant
                n == servers@.len(),
                ss == servers.deep_view(),
                i <= n,
                first_bad_route(ss, i as int) == first_bad_route(ss, 0),
            decreases n - i,
        {
            let owner = &servers[i];
            let ghost ov = ss[i as int];
            match &owner.routes {
                None => {
                    proof {
                        assert(server_routes(ov) =~= Seq::<RouteView>::empty());
                        assert(first_bad_route_of(ss, ov, 0) is None);
                    }
                },
                Some(routes) => {
                    proof {
                        assert(server_routes(ov) == routes.deep_view());
                    }
                    let m = routes.len();
                    let mut k: usize = 0;
                    while k < m
                        invariant
                            n == servers@.len(),
                            ss == servers.deep_view(),
                            i < n,
                            ov == ss[i as int],
                            server_routes(ov) == routes.deep_view(),
                            m == routes@.len(),
                            k <= m,
                            owner == servers@[i as int],
                            first_bad_route(ss, i as int) == first_bad_route(ss, 0),
                            first_bad_route_of(ss, ov, k as int) == first_bad_route_of(ss, ov, 0),
                        decreases m - k,
                    {
                        let route = &routes[k];
                        proof {
                            assert(route.deep_view() == server_routes(ov)[k as int]);
                        }
                        let bad = if route.via == owner.node {
                            true
                        } else {
                            !node_exists(servers, &route.via)
                        };
                        if bad {
                            proof {
                                assert(!route_target_ok(ss, ov, server_routes(ov)[k as int]));
                                assert(first_bad_route_of(ss, ov, k as int) == Some(k as int));
                                assert(first_bad_route(ss, i as int) == Some((i as int, k as int)));
                            }
                            return Err(
                                ConfigError::UnknownRouteTarget(
                                    owner.node.clone(),
                                    route.via.clone(),
                                ),
                            );
                        }
                        proof {
                            assert(route_target_ok(ss, ov, server_routes(ov)[k as int]));
                        }
                        k = k + 1;
                    }
                },
            }
            i = i + 1;
        }
        Ok(())
    }

    /// Checks every structural and referential invariant of the declaration,
    /// in a fixed order, and reports the first violated check together with
    /// the offending entity. Succeeds exactly on the valid declarations.
    pub fn valid(&self) -> (r: Result<(), ConfigError>)
        ensures
            r is Ok <==> cfg_valid(self@),
            r matches Err(e) ==> spec_validate(self@) == Some(e@),
    {
        proof {
            lemma_validate_iff_valid(self@);
        }
        if self.network.as_str().is_empty() {
            return Err(ConfigError::MissingNetwork);
        }
        let net = match parse_network(self.network.as_str()) {
            Some(n) => n,
            None => {
                return Err(ConfigError::MalformedNetwork);
            },
        };
        if self.servers.len() == 0 {
            return Err(ConfigError::NoNodes);
        }
        let addrs = match Self::check_addrs(&self.servers) {
            Ok(v) => v,
            Err(e) => {
                return Err(e);
            },
        };
        match Self::check_dup_addrs(&self.servers, &addrs) {
            Ok(()) => (),
            Err(e) => {
                return Err(e);
            },
        }
        match Self::check_inside(&self.servers, &addrs, net, &self.network) {
            Ok(()) => (),
            Err(e) => {
                return Err(e);
            },
        }
        match Self::check_dup_keys(&self.servers) {
            Ok(()) => (),
            Err(e) => {
                return Err(e);
            },
        }
        match Self::check_routes(&self.servers) {
            Ok(()) => (),
            Err(e) => {
                return Err(e);
            },
        }
        Ok(())
    }
}

// ---------------------------------------------------------------------------
// Preparation: the interface string and the derived public key of each node.
// ---------------------------------------------------------------------------

/// Every node's private key is the base64 encoding of exactly 32 bytes.
pub open spec fn all_keys_ok(ss: Seq<ServerView>) -> bool {
    forall|i: int| 0 <= i < ss.len() ==> key_bytes(ss[i].private_key) is Some
}

pub open spec fn first_bad_key(ss: Seq<ServerView>, i: int) -> Option<int>
    decreases ss.len() - i,
{
    if i < 0 || i >= ss.len() {
        None
    } else if key_bytes(ss[i].private_key) is None {
        Some(i)
    } else {
        first_bad_key(ss, i + 1)
    }
}

proof fn lemma_first_bad_key(ss: Seq<ServerView>, i: int)
    requires
        0 <= i <= ss.len(),
    ensures
        match first_bad_key(ss, i) {
            None => forall|k: int| i <= k < ss.len() ==> key_bytes(ss[k].private_key) is Some,
            Some(j) => i <= j < ss.len() && key_bytes(ss[j].private_key) is None && (forall|k: int|
                i <= k < j ==> key_bytes(ss[k].private_key) is Some),
        },
    decreases ss.len() - i,
{
    if i < ss.len() && key_bytes(ss[i].private_key) is Some {
        lemma_first_bad_key(ss, i + 1);
    }
}

/// The node's own `address/prefix` interface string.
pub open spec fn spec_network_str(addr: Seq<char>, prefix: u8) -> Seq<char> {
    addr + seq!['/'] + spec_dec(prefix as int)
}

/// A node after preparation: its interface string and derived public key are
/// filled in, everything else is as declared.
pub open spec fn spec_enrich_server(s: ServerView, prefix: u8) -> ServerView {
    ServerView {
        network: spec_network_str(s.address, prefix),
        public_key: spec_public_key(s.private_key),
        ..s
    }
}

/// The prepared declaration: each node enriched with the declared network's
/// prefix length and its derived public key.
pub open spec fn spec_prepare(c: ConfigView) -> ConfigView {
    ConfigView {
        servers: Seq::new(
            c.servers.len(),
            |i: int| spec_enrich_server(c.servers[i], net_parsed(c.network).unwrap().2),
        ),
        ..c
    }
}

impl Config {
    /// Validates the declaration, then fills in, for every node, its
    /// `address/prefix` interface string and the public key derived from its
    /// private key. The declaration itself is left untouched. Fails with the
    /// first validation error, or with `InvalidKeyEncoding` for the first
    /// node whose private key is not the base64 encoding of 32 bytes.
    pub fn prepare(&self) -> (r: Result<Config, ConfigError>)
        ensures
            r is Ok <==> cfg_valid(self@) && all_keys_ok(self@.servers),
            r matches Ok(c) ==> c@ == spec_prepare(self@),
            r matches Err(e) ==> (if spec_validate(self@) is Some {
                spec_validate(self@) == Some(e@)
            } else {
                first_bad_key(self@.servers, 0) matches Some(j) && e@
                    == ConfigErrorView::InvalidKeyEncoding(self@.servers[j].node)
            }),
    {
        proof {
            lemma_validate_iff_valid(self@);
            lemma_first_bad_key(self@.servers, 0);
        }
        match self.valid() {
            Ok(()) => (),
            Err(e) => {
                return Err(e);
            },
        }
        let ghost cv = self@;
        let ghost ss = self@.servers;
        let net = parse_network(self.network.as_str()).unwrap();
        let prefix = net.2;
        let n = self.servers.len();
        let mut out: Vec<Server> = Vec::new();
        let mut i: usize = 0;
        while i < n
            invariant
                n == self.servers@.len(),
                cv == self@,
                ss == self@.servers,
                net == net_parsed(cv.network).unwrap(),
                prefix == net.2,
                cfg_valid(cv),
                spec_validate(cv) is None,
                i <= n,
                out@.len() == i as int,
                forall|k: int|
                    0 <= k < i as int ==> out@[k].deep_view() == spec_enrich_server(ss[k], prefix),
                forall|k: int| 0 <= k < i as int ==> key_bytes(ss[k].private_key) is Some,
                first_bad_key(ss, i as int) == first_bad_key(ss, 0),
            decreases n - i,
        {
            let s = &self.servers[i];
            proof {
                assert(s.deep_view() == ss[i as int]);
            }
            let public_key = match derive_public(s.private_key.as_str()) {
                Some(p) => p,
                None => {
                    proof {
                        assert(key_bytes(ss[i as int].private_key) is None);
                        assert(first_bad_key(ss, i as int) == Some(i as int));
                    }
                    return Err(ConfigError::InvalidKeyEncoding(s.node.clone()));
                },
            };
            let mut network = s.address.clone();
            network.append("/");
            let dec = u8_to_dec(prefix);
            network.append(dec.as_str());
            proof {
                reveal_strlit("/");
                assert(network@ =~= spec_network_str(ss[i as int].address, prefix));
            }
            let new_s = Server {
                node: s.node.clone(),
                address: s.address.clone(),
                network,
                listen_port: s.listen_port,
                dns: clone_opt_string(&s.dns),
                private_key: s.private_key.clone(),
                public_key,
                public_address: clone_opt_string(&s.public_address),
                pre_up: clone_opt_string(&s.pre_up),
                pre_down: clone_opt_string(&s.pre_down),
                post_up: clone_opt_string(&s.post_up),
                post_down: clone_opt_string(&s.post_down),
                persistent_keepalive: s.persistent_keepalive,
                routes: clone_opt_routes(&s.routes),
            };
            proof {
                assert(new_s.deep_view() =~= spec_enrich_server(ss[i as int], prefix));
            }
            let ghost prev = out@;
            out.push(new_s);
            i = i + 1;
            proof {
                assert(out@ == prev.push(new_s));
                assert forall|k: int|
                    0 <= k < i as int implies out@[k].deep_view() == spec_enrich_server(
                    ss[k],
                    prefix,
                ) by {
                    if k < i as int - 1 {
                        assert(out@[k] == prev[k]);
                    } else {
                        assert(out@[k] == new_s);
                    }
                }
            }
        }
        let prepared = Config {
            network: self.network.clone(),
            mtu: self.mtu,
            pre_up: clone_opt_string(&self.pre_up),
            pre_down: clone_opt_string(&self.pre_down),
            post_up: clone_opt_string(&self.post_up),
            post_down: clone_opt_string(&self.post_down),
            persistent_keepalive: self.persistent_keepalive,
            servers: out,
        };
        proof {
            assert forall|k: int|
                0 <= k < n as int implies prepared.deep_view().servers[k] == spec_prepare(
                cv,
            ).servers[k] by {
                assert(prepared.deep_view().servers[k] == out@[k].deep_view());
            }
            assert(prepared.deep_view().servers =~= spec_prepare(cv).servers);
            assert(prepared.deep_view() =~= spec_prepare(cv));
        }
        Ok(prepared)
    }
}

// ---------------------------------------------------------------------------
// Laws of the validator.
// ---------------------------------------------------------------------------

/// Law: two nodes sharing a private key are rejected with
/// `DuplicatePrivateKey`, naming the later of the two nodes, whenever the
/// network and address checks pass; no key is decoded before validation
/// succeeds.
pub proof fn lemma_duplicate_key_rejected(c: ConfigView, i: int, j: int)
    requires
        network_ok(c),
        c.servers.len() > 0,
        all_addrs_ok(c.servers),
        addrs_distinct(c.servers),
        all_inside(c.servers, net_parsed(c.network).unwrap()),
        0 <= i < j < c.servers.len(),
        c.servers[i].private_key == c.servers[j].private_key,
    ensures
        spec_validate(c) matches Some(e) && e is DuplicatePrivateKey,
{
    lemma_first_bad_addr(c.servers, 0);
    lemma_first_dup_addr(c.servers, 0);
    lemma_first_outside(c.servers, net_parsed(c.network).unwrap(), 0);
    lemma_first_dup_key(c.servers, 0);
    assert(!key_fresh(c.servers, j));
    if first_dup_key(c.servers, 0) is None {
        assert(key_fresh(c.servers, j));
    }
}

/// Law: a node whose address lies outside the declared network is rejected
/// with `AddressOutOfNetwork` whenever the network, parse and distinctness
/// checks pass, whatever its other fields hold.
pub proof fn lemma_address_outside_rejected(c: ConfigView, i: int)
    requires
        network_ok(c),
        c.servers.len() > 0,
        all_addrs_ok(c.servers),
        addrs_distinct(c.servers),
        0 <= i < c.servers.len(),
        !addr_inside(c.servers[i], net_parsed(c.network).unwrap()),
    ensures
        spec_validate(c) matches Some(e) && e is AddressOutOfNetwork,
{
    lemma_first_bad_addr(c.servers, 0);
    lemma_first_dup_addr(c.servers, 0);
    lemma_first_outside(c.servers, net_parsed(c.network).unwrap(), 0);
    if first_outside(c.servers, net_parsed(c.network).unwrap(), 0) is None {
        assert(addr_inside(c.servers[i], net_parsed(c.network).unwrap()));
    }
}

/// Law: a route whose `via` names the owning node itself, or no declared
/// node, is rejected with `UnknownRouteTarget` whenever every earlier check
/// passes.
pub proof fn lemma_bad_route_rejected(c: ConfigView, i: int, k: int)
    requires
        network_ok(c),
        c.servers.len() > 0,
        all_addrs_ok(c.servers),
        addrs_distinct(c.servers),
        all_inside(c.servers, net_parsed(c.network).unwrap()),
        keys_distinct(c.servers),
        0 <= i < c.servers.len(),
        0 <= k < server_routes(c.servers[i]).len(),
        !route_target_ok(c.servers, c.servers[i], server_routes(c.servers[i])[k]),
    ensures
        spec_validate(c) matches Some(e) && e is UnknownRouteTarget,
{
    lemma_first_bad_addr(c.servers, 0);
    lemma_first_dup_addr(c.servers, 0);
    lemma_first_outside(c.servers, net_parsed(c.network).unwrap(), 0);
    lemma_first_dup_key(c.servers, 0);
    lemma_first_bad_route(c.servers, 0);
    assert(!server_routes_ok(c.servers, c.servers[i]));
    if first_bad_route(c.servers, 0) is None {
        assert(server_routes_ok(c.servers, c.servers[i]));
    }
}

} // verus!
