//! The network configuration: the drones, clients and servers of a simulation,
//! each with the ids of the nodes it is linked to, and the rules that decide
//! whether such a configuration describes a usable network.
use vstd::prelude::*;

verus! {

/// What the rules see of one configured node: its id and the ids of the nodes
/// it declares as neighbours, in the order in which they are written.
pub struct NodeView {
    pub id: u8,
    pub links: Seq<u8>,
}

/// What the rules see of a whole configuration.
pub struct ConfigView {
    pub drones: Seq<NodeView>,
    pub clients: Seq<NodeView>,
    pub servers: Seq<NodeView>,
}

/// The three kinds of node that a configuration lists.
#[derive(Clone, Copy, Debug, PartialEq, Eq, Structural)]
pub enum NodeKind {
    Drone,
    Client,
    Server,
}

/// A configured drone. Its packet drop rate is carried as the bit pattern of
/// the `f32` that the configuration file holds.
pub struct DroneConfig {
    pub id: u8,
    pub connected_node_ids: Vec<u8>,
    pub pdr_bits: u32,
}

/// A configured client.
pub struct ClientConfig {
    pub id: u8,
    pub connected_drone_ids: Vec<u8>,
}

/// A configured server.
pub struct ServerConfig {
    pub id: u8,
    pub connected_drone_ids: Vec<u8>,
}

/// A whole configuration, in the order of the configuration file.
pub struct Config {
    pub drone: Vec<DroneConfig>,
    pub client: Vec<ClientConfig>,
    pub server: Vec<ServerConfig>,
}

/// A configured node of any kind: its id and its list of neighbours.
pub trait NetworkNode {
    spec fn node(&self) -> NodeView;

    fn node_id(&self) -> (r: u8)
        ensures
            r == self.node().id,
    ;

    fn links(&self) -> (r: &Vec<u8>)
        ensures
            r@ == self.node().links,
    ;
}

impl NetworkNode for DroneConfig {
    open spec fn node(&self) -> NodeView {
        NodeView { id: self.id, links: self.connected_node_ids@ }
    }

    fn node_id(&self) -> (r: u8) {
        self.id
    }

    fn links(&self) -> (r: &Vec<u8>) {
        &self.connected_node_ids
    }
}

impl NetworkNode for ClientConfig {
    open spec fn node(&self) -> NodeView {
        NodeView { id: self.id, links: self.connected_drone_ids@ }
    }

    fn node_id(&self) -> (r: u8) {
        self.id
    }

    fn links(&self) -> (r: &Vec<u8>) {
        &self.connected_drone_ids
    }
}

impl NetworkNode for ServerConfig {
    open spec fn node(&self) -> NodeView {
        NodeView { id: self.id, links: self.connected_drone_ids@ }
    }

    fn node_id(&self) -> (r: u8) {
        self.id
    }

    fn links(&self) -> (r: &Vec<u8>) {
        &self.connected_drone_ids
    }
}

/// The views of a list of configured nodes.
pub open spec fn nodes_view<N: NetworkNode>(nodes: Seq<N>) -> Seq<NodeView> {
    nodes.map_values(|n: N| n.node())
}

impl View for DroneConfig {
    type V = NodeView;

    open spec fn view(&self) -> NodeView {
        self.node()
    }
}

impl View for ClientConfig {
    type V = NodeView;

    open spec fn view(&self) -> NodeView {
        self.node()
    }
}

impl View for ServerConfig {
    type V = NodeView;

    open spec fn view(&self) -> NodeView {
        self.node()
    }
}

impl View for Config {
    type V = ConfigView;

    open spec fn view(&self) -> ConfigView {
        ConfigView {
            drones: nodes_view(self.drone@),
            clients: nodes_view(self.client@),
            servers: nodes_view(self.server@),
        }
    }
}

/// The first node of `nodes` whose id is `id`, if there is one.
pub open spec fn first_with_id(nodes: Seq<NodeView>, id: u8) -> Option<NodeView>
    decreases nodes.len(),
{
    if nodes.len() == 0 {
        None
    } else if nodes[0].id == id {
        Some(nodes[0])
    } else {
        first_with_id(nodes.drop_first(), id)
    }
}

/// Whether some node of `nodes` has the id `id`.
pub open spec fn has_id(nodes: Seq<NodeView>, id: u8) -> bool {
    exists|i: int| 0 <= i < nodes.len() && nodes[i].id == id
}

pub proof fn lemma_first_with_id_skip(nodes: Seq<NodeView>, id: u8, i: int)
    requires
        0 <= i < nodes.len(),
    ensures
        first_with_id(nodes.skip(i), id) == (if nodes[i].id == id {
            Some(nodes[i])
        } else {
            first_with_id(nodes.skip(i + 1), id)
        }),
{
    assert(nodes.skip(i).drop_first() =~= nodes.skip(i + 1));
}

/// `first_with_id` finds a node exactly when one has the id, and the node it
/// finds is one of the list with that id.
pub proof fn lemma_first_with_id(nodes: Seq<NodeView>, id: u8)
    ensures
        first_with_id(nodes, id) is Some <==> has_id(nodes, id),
        first_with_id(nodes, id) matches Some(n) ==> n.id == id && nodes.contains(n),
    decreases nodes.len(),
{
    if nodes.len() > 0 {
        lemma_first_with_id(nodes.drop_first(), id);
        if nodes[0].id != id {
            if has_id(nodes, id) {
                let i = choose|i: int| 0 <= i < nodes.len() && nodes[i].id == id;
                assert(nodes.drop_first()[i - 1].id == id);
            }
            if has_id(nodes.drop_first(), id) {
                let i = choose|i: int| 0 <= i < nodes.len() - 1 && nodes.drop_first()[i].id == id;
                assert(nodes[i + 1].id == id);
            }
            if first_with_id(nodes, id) is Some {
                let n = first_with_id(nodes, id)->0;
                let k = choose|k: int| 0 <= k < nodes.len() - 1 && nodes.drop_first()[k] == n;
                assert(nodes[k + 1] == n);
            }
        } else {
            assert(nodes[0].id == id);
            assert(nodes.contains(nodes[0]));
        }
    }
}

/// The first error that `f` reports for an element of `s`, in order.
pub open spec fn first_error<T>(s: Seq<T>, f: spec_fn(T) -> Option<ConfigError>) -> Option<
    ConfigError,
>
    decreases s.len(),
{
    if s.len() == 0 {
        None
    } else {
        match f(s[0]) {
            Some(e) => Some(e),
            None => first_error(s.drop_first(), f),
        }
    }
}

pub proof fn lemma_first_error_skip<T>(s: Seq<T>, f: spec_fn(T) -> Option<ConfigError>, i: int)
    requires
        0 <= i < s.len(),
    ensures
        first_error(s.skip(i), f) == (match f(s[i]) {
            Some(e) => Some(e),
            None => first_error(s.skip(i + 1), f),
        }),
{
    assert(s.skip(i).drop_first() =~= s.skip(i + 1));
}

/// `first_error` reports nothing exactly when `f` reports nothing for any element.
pub proof fn lemma_first_error_none<T>(s: Seq<T>, f: spec_fn(T) -> Option<ConfigError>)
    ensures
        first_error(s, f) is None <==> forall|i: int| 0 <= i < s.len() ==> (#[trigger] f(s[i])) is None,
    decreases s.len(),
{
    if s.len() > 0 {
        lemma_first_error_none(s.drop_first(), f);
        if first_error(s, f) is None {
            assert forall|i: int| 0 <= i < s.len() implies (#[trigger] f(s[i])) is None by {
                if i > 0 {
                    assert(s[i] == s.drop_first()[i - 1]);
                }
            }
        }
        if forall|i: int| 0 <= i < s.len() ==> (#[trigger] f(s[i])) is None {
            assert(f(s[0]) is None);
            assert forall|i: int| 0 <= i < s.len() - 1 implies (#[trigger] f(
                s.drop_first()[i],
            )) is None by {
                assert(s.drop_first()[i] == s[i + 1]);
            }
        }
    }
}

/// Why a configuration is refused.
#[derive(Clone, Copy, Debug, PartialEq, Eq, Structural)]
pub enum ConfigError {
    /// A drone lists no neighbour.
    DroneWithoutConnections { drone: u8 },
    /// A drone lists itself as a neighbour.
    DroneConnectedToItself { drone: u8 },
    /// A drone lists some neighbour twice.
    DroneDuplicateConnections { drone: u8 },
    /// A client lists no drone, or more than two.
    ClientConnectionCount { client: u8 },
    /// A server lists fewer than two drones.
    ServerConnectionCount { server: u8 },
    /// A drone lists a client that does not list the drone.
    ClientNotConnectedToDrone { client: u8, drone: u8 },
    /// A drone lists a server that does not list the drone.
    ServerNotConnectedToDrone { server: u8, drone: u8 },
    /// A drone lists another drone that does not list it back.
    DroneNotConnectedToDrone { drone: u8, neighbor: u8 },
    /// A drone lists an id that no node has.
    DroneUnknownNeighbor { drone: u8, node: u8 },
    /// A client lists a drone that does not list the client.
    DroneNotConnectedToClient { drone: u8, client: u8 },
    /// A client lists a server.
    ClientConnectedToServer { client: u8, server: u8 },
    /// A client lists a client.
    ClientConnectedToClient { client: u8, other: u8 },
    /// A client lists an id that no drone has.
    ClientUnknownDrone { client: u8, node: u8 },
    /// A server lists a drone that does not list the server.
    DroneNotConnectedToServer { drone: u8, server: u8 },
    /// A server lists a client.
    ServerConnectedToClient { server: u8, client: u8 },
    /// A server lists a server.
    ServerConnectedToServer { server: u8, other: u8 },
    /// A server lists an id that no drone has.
    ServerUnknownDrone { server: u8, node: u8 },
}

/// The rule that a node of the given kind must meet on its own: a drone has at
/// least one neighbour, not itself, and none twice; a client has one or two;
/// a server has at least two.
pub open spec fn local_error(kind: NodeKind, n: NodeView) -> Option<ConfigError> {
    match kind {
        NodeKind::Drone => if n.links.len() == 0 {
            Some(ConfigError::DroneWithoutConnections { drone: n.id })
        } else if n.links.contains(n.id) {
            Some(ConfigError::DroneConnectedToItself { drone: n.id })
        } else if !n.links.no_duplicates() {
            Some(ConfigError::DroneDuplicateConnections { drone: n.id })
        } else {
            None
        },
        NodeKind::Client => if !(n.links.len() < 3 && n.links.len() != 0) {
            Some(ConfigError::ClientConnectionCount { client: n.id })
        } else {
            None
        },
        NodeKind::Server => if n.links.len() < 2 {
            Some(ConfigError::ServerConnectionCount { server: n.id })
        } else {
            None
        },
    }
}

/// The check of one link, from the node `me` of the given kind to the id `to`.
///
/// A drone's neighbour must be some node; the first client, the first server
/// and the first drone with that id must each list the drone back. A client's
/// or a server's neighbour must be a drone whose first entry lists it back,
/// and no client or server may have that id.
pub open spec fn link_error(cfg: ConfigView, kind: NodeKind, me: u8, to: u8) -> Option<ConfigError> {
    let drone = first_with_id(cfg.drones, to);
    let client = first_with_id(cfg.clients, to);
    let server = first_with_id(cfg.servers, to);
    match kind {
        NodeKind::Drone => if client is Some && !client->0.links.contains(me) {
            Some(ConfigError::ClientNotConnectedToDrone { client: to, drone: me })
        } else if server is Some && !server->0.links.contains(me) {
            Some(ConfigError::ServerNotConnectedToDrone { server: to, drone: me })
        } else if drone is Some && !drone->0.links.contains(me) {
            Some(ConfigError::DroneNotConnectedToDrone { drone: to, neighbor: me })
        } else if client is None && server is None && drone is None {
            Some(ConfigError::DroneUnknownNeighbor { drone: me, node: to })
        } else {
            None
        },
        NodeKind::Client => if drone is Some && !drone->0.links.contains(me) {
            Some(ConfigError::DroneNotConnectedToClient { drone: to, client: me })
        } else if server is Some {
            Some(ConfigError::ClientConnectedToServer { client: me, server: to })
        } else if client is Some {
            Some(ConfigError::ClientConnectedToClient { client: me, other: to })
        } else if drone is None {
            Some(ConfigError::ClientUnknownDrone { client: me, node: to })
        } else {
            None
        },
        NodeKind::Server => if drone is Some && !drone->0.links.contains(me) {
            Some(ConfigError::DroneNotConnectedToServer { drone: to, server: me })
        } else if client is Some {
            Some(ConfigError::ServerConnectedToClient { server: me, client: to })
        } else if server is Some {
            Some(ConfigError::ServerConnectedToServer { server: me, other: to })
        } else if drone is None {
            Some(ConfigError::ServerUnknownDrone { server: me, node: to })
        } else {
            None
        },
    }
}

pub open spec fn local_check(kind: NodeKind) -> spec_fn(NodeView) -> Option<ConfigError> {
    |n: NodeView| local_error(kind, n)
}

pub open spec fn link_check(cfg: ConfigView, kind: NodeKind, me: u8) -> spec_fn(u8) -> Option<
    ConfigError,
> {
    |to: u8| link_error(cfg, kind, me, to)
}

pub open spec fn links_check(cfg: ConfigView, kind: NodeKind) -> spec_fn(NodeView) -> Option<
    ConfigError,
> {
    |n: NodeView| first_error(n.links, link_check(cfg, kind, n.id))
}

/// The first of two outcomes that reports an error.
pub open spec fn or_else(a: Option<ConfigError>, b: Option<ConfigError>) -> Option<ConfigError> {
    if a is Some {
        a
    } else {
        b
    }
}

/// The error that validation reports for a configuration, if any: the nodes are
/// checked on their own first (drones, then clients, then servers, each in the
/// order of the configuration), then the links of each node in the same order.
pub open spec fn config_error(cfg: ConfigView) -> Option<ConfigError> {
    or_else(
        first_error(cfg.drones, local_check(NodeKind::Drone)),
        or_else(
            first_error(cfg.clients, local_check(NodeKind::Client)),
            or_else(
                first_error(cfg.servers, local_check(NodeKind::Server)),
                or_else(
                    first_error(cfg.drones, links_check(cfg, NodeKind::Drone)),
                    or_else(
                        first_error(cfg.clients, links_check(cfg, NodeKind::Client)),
                        first_error(cfg.servers, links_check(cfg, NodeKind::Server)),
                    ),
                ),
            ),
        ),
    )
}

/// Whether `v` holds `x`.
fn contains_id(v: &Vec<u8>, x: u8) -> (r: bool)
    ensures
        r == v@.contains(x),
{
    let mut i: usize = 0;
    while i < v.len()
        invariant
            i <= v.len(),
            forall|k: int| 0 <= k < i ==> v@[k] != x,
        decreases v.len() - i,
    {
        if v[i] == x {
            assert(v@[i as int] == x);
            return true;
        }
        i += 1;
    }
    false
}

/// Whether some value occurs twice in `v`.
fn has_duplicate(v: &Vec<u8>) -> (r: bool)
    ensures
        r == !v@.no_duplicates(),
{
    let mut i: usize = 0;
    while i < v.len()
        invariant
            i <= v.len(),
            forall|a: int, b: int| 0 <= a < i && a < b < v.len() ==> v@[a] != v@[b],
        decreases v.len() - i,
    {
        let mut j: usize = i + 1;
        while j < v.len()
            invariant
                i < v.len(),
                i < j <= v.len(),
                forall|a: int, b: int| 0 <= a < i && a < b < v.len() ==> v@[a] != v@[b],
                forall|b: int| i < b < j ==> v@[i as int] != v@[b],
            decreases v.len() - j,
        {
            if v[i] == v[j] {
                return true;
            }
            j += 1;
        }
        i += 1;
    }
    assert forall|a: int, b: int|
        (0 <= a < v@.len() && 0 <= b < v@.len() && a != b) implies v@[a] != v@[b] by {
        if b < a {
            assert(v@[b] != v@[a]);
        }
    }
    false
}

/// The first node of `nodes` with the id `id`.
fn find_node<N: NetworkNode>(nodes: &Vec<N>, id: u8) -> (r: Option<&N>)
    ensures
        match r {
            Some(n) => first_with_id(nodes_view(nodes@), id) == Some(n.node()),
            None => first_with_id(nodes_view(nodes@), id) is None,
        },
{
    let ghost all = nodes_view(nodes@);
    let mut i: usize = 0;
    assert(all.skip(0) =~= all);
    while i < nodes.len()
        invariant
            i <= nodes.len(),
            all == nodes_view(nodes@),
            first_with_id(all, id) == first_with_id(all.skip(i as int), id),
        decreases nodes.len() - i,
    {
        proof {
            lemma_first_with_id_skip(all, id, i as int);
        }
        if nodes[i].node_id() == id {
            return Some(&nodes[i]);
        }
        i += 1;
    }
    None
}

/// The rule of `local_error` for one node.
fn check_node<N: NetworkNode>(kind: NodeKind, node: &N) -> (r: Option<ConfigError>)
    ensures
        r == local_error(kind, node.node()),
{
    let id = node.node_id();
    let links = node.links();
    match kind {
        NodeKind::Drone => {
            if links.len() == 0 {
                Some(ConfigError::DroneWithoutConnections { drone: id })
            } else if contains_id(links, id) {
                Some(ConfigError::DroneConnectedToItself { drone: id })
            } else if has_duplicate(links) {
                Some(ConfigError::DroneDuplicateConnections { drone: id })
            } else {
                None
            }
        },
        NodeKind::Client => {
            if !(links.len() < 3 && links.len() != 0) {
                Some(ConfigError::ClientConnectionCount { client: id })
            } else {
                None
            }
        },
        NodeKind::Server => {
            if links.len() < 2 {
                Some(ConfigError::ServerConnectionCount { server: id })
            } else {
                None
            }
        },
    }
}

/// Whether the node found by a lookup, if any, fails to list `me`.
fn misses_link<N: NetworkNode>(found: Option<&N>, me: u8) -> (r: bool)
    ensures
        r == (match found {
            Some(n) => !n.node().links.contains(me),
            None => false,
        }),
{
    match found {
        Some(n) => !contains_id(n.links(), me),
        None => false,
    }
}

/// The rule of `link_error` for one link.
fn check_link(config: &Config, kind: NodeKind, me: u8, to: u8) -> (r: Option<ConfigError>)
    ensures
        r == link_error(config@, kind, me, to),
{
    let drone = find_node(&config.drone, to);
    let client = find_node(&config.client, to);
    let server = find_node(&config.server, to);
    match kind {
        NodeKind::Drone => {
            if misses_link(client, me) {
                Some(ConfigError::ClientNotConnectedToDrone { client: to, drone: me })
            } else if misses_link(server, me) {
                Some(ConfigError::ServerNotConnectedToDrone { server: to, drone: me })
            } else if misses_link(drone, me) {
                Some(ConfigError::DroneNotConnectedToDrone { drone: to, neighbor: me })
            } else if client.is_none() && server.is_none() && drone.is_none() {
                Some(ConfigError::DroneUnknownNeighbor { drone: me, node: to })
            } else {
                None
            }
        },
        NodeKind::Client => {
            if misses_link(drone, me) {
                Some(ConfigError::DroneNotConnectedToClient { drone: to, client: me })
            } else if server.is_some() {
                Some(ConfigError::ClientConnectedToServer { client: me, server: to })
            } else if client.is_some() {
                Some(ConfigError::ClientConnectedToClient { client: me, other: to })
            } else if drone.is_none() {
                Some(ConfigError::ClientUnknownDrone { client: me, node: to })
            } else {
                None
            }
        },
        NodeKind::Server => {
            if misses_link(drone, me) {
                Some(ConfigError::DroneNotConnectedToServer { drone: to, server: me })
            } else if client.is_some() {
                Some(ConfigError::ServerConnectedToClient { server: me, client: to })
            } else if server.is_some() {
                Some(ConfigError::ServerConnectedToServer { server: me, other: to })
            } else if drone.is_none() {
                Some(ConfigError::ServerUnknownDrone { server: me, node: to })
            } else {
                None
            }
        },
    }
}

/// The first node of `nodes` that breaks the rule of its kind on its own.
fn first_node_error<N: NetworkNode>(kind: NodeKind, nodes: &Vec<N>) -> (r: Option<ConfigError>)
    ensures
        r == first_error(nodes_view(nodes@), local_check(kind)),
{
    let ghost all = nodes_view(nodes@);
    let ghost f = local_check(kind);
    let mut i: usize = 0;
    assert(all.skip(0) =~= all);
    while i < nodes.len()
        invariant
            i <= nodes.len(),
            all == nodes_view(nodes@),
            f == local_check(kind),
            first_error(all, f) == first_error(all.skip(i as int), f),
        decreases nodes.len() - i,
    {
        proof {
            lemma_first_error_skip(all, f, i as int);
        }
        let e = check_node(kind, &nodes[i]);
        if e.is_some() {
            return e;
        }
        i += 1;
    }
    None
}

/// The first link of the node `me` that breaks the rules.
fn first_link_error_of(config: &Config, kind: NodeKind, me: u8, links: &Vec<u8>) -> (r: Option<
    ConfigError,
>)
    ensures
        r == first_error(links@, link_check(config@, kind, me)),
{
    let ghost f = link_check(config@, kind, me);
    let mut i: usize = 0;
    assert(links@.skip(0) =~= links@);
    while i < links.len()
        invariant
            i <= links.len(),
            f == link_check(config@, kind, me),
            first_error(links@, f) == first_error(links@.skip(i as int), f),
        decreases links.len() - i,
    {
        proof {
            lemma_first_error_skip(links@, f, i as int);
        }
        let e = check_link(config, kind, me, links[i]);
        if e.is_some() {
            return e;
        }
        i += 1;
    }
    None
}

/// The first node of `nodes` one of whose links breaks the rules.
fn first_links_error<N: NetworkNode>(config: &Config, kind: NodeKind, nodes: &Vec<N>) -> (r:
    Option<ConfigError>)
    ensures
        r == first_error(nodes_view(nodes@), links_check(config@, kind)),
{
    let ghost all = nodes_view(nodes@);
    let ghost f = links_check(config@, kind);
    let mut i: usize = 0;
    assert(all.skip(0) =~= all);
    while i < nodes.len()
        invariant
            i <= nodes.len(),
            all == nodes_view(nodes@),
            f == links_check(config@, kind),
            first_error(all, f) == first_error(all.skip(i as int), f),
        decreases nodes.len() - i,
    {
        proof {
            lemma_first_error_skip(all, f, i as int);
        }
        let node = &nodes[i];
        let e = first_link_error_of(config, kind, node.node_id(), node.links());
        if e.is_some() {
            return e;
        }
        i += 1;
    }
    None
}

/// Checks a configuration against the rules of the network: each node on its
/// own, then each link, and reports the first rule that is broken.
pub fn validate_config(config: &Config) -> (r: Result<(), ConfigError>)
    ensures
        r == (match config_error(config@) {
            Some(e) => Err(e),
            None => Ok(()),
        }),
{
    if let Some(e) = first_node_error(NodeKind::Drone, &config.drone) {
        return Err(e);
    }
    if let Some(e) = first_node_error(NodeKind::Client, &config.client) {
        return Err(e);
    }
    if let Some(e) = first_node_error(NodeKind::Server, &config.server) {
        return Err(e);
    }
    if let Some(e) = first_links_error(config, NodeKind::Drone, &config.drone) {
        return Err(e);
    }
    if let Some(e) = first_links_error(config, NodeKind::Client, &config.client) {
        return Err(e);
    }
    if let Some(e) = first_links_error(config, NodeKind::Server, &config.server) {
        return Err(e);
    }
    Ok(())
}

/// A drone is well formed when it has a neighbour, is not its own neighbour,
/// and lists no neighbour twice.
pub open spec fn drone_well_formed(d: NodeView) -> bool {
    &&& d.links.len() > 0
    &&& !d.links.contains(d.id)
    &&& d.links.no_duplicates()
}

/// A client is well formed when it lists one or two drones.
pub open spec fn client_well_formed(c: NodeView) -> bool {
    1 <= c.links.len() <= 2
}

/// A server is well formed when it lists at least two drones.
pub open spec fn server_well_formed(s: NodeView) -> bool {
    s.links.len() >= 2
}

/// The node found, if one was found, lists `me`.
pub open spec fn lists_back(found: Option<NodeView>, me: u8) -> bool {
    found matches Some(n) ==> n.links.contains(me)
}

/// A drone's link to `to` is valid when some node has the id `to`, and the
/// first client, the first server and the first drone with that id list the
/// drone back.
pub open spec fn drone_link_valid(cfg: ConfigView, me: u8, to: u8) -> bool {
    &&& has_id(cfg.drones, to) || has_id(cfg.clients, to) || has_id(cfg.servers, to)
    &&& lists_back(first_with_id(cfg.clients, to), me)
    &&& lists_back(first_with_id(cfg.servers, to), me)
    &&& lists_back(first_with_id(cfg.drones, to), me)
}

/// A client's or a server's link to `to` is valid when `to` is the id of a drone
/// whose first entry lists the node back, and of no client and no server.
pub open spec fn endpoint_link_valid(cfg: ConfigView, me: u8, to: u8) -> bool {
    &&& has_id(cfg.drones, to)
    &&& first_with_id(cfg.drones, to)->0.links.contains(me)
    &&& !has_id(cfg.clients, to)
    &&& !has_id(cfg.servers, to)
}

/// Whether a link of a node of the given kind is valid.
pub open spec fn link_valid(cfg: ConfigView, kind: NodeKind, me: u8, to: u8) -> bool {
    match kind {
        NodeKind::Drone => drone_link_valid(cfg, me, to),
        _ => endpoint_link_valid(cfg, me, to),
    }
}

/// Whether a node of the given kind is well formed on its own.
pub open spec fn well_formed(kind: NodeKind, n: NodeView) -> bool {
    match kind {
        NodeKind::Drone => drone_well_formed(n),
        NodeKind::Client => client_well_formed(n),
        NodeKind::Server => server_well_formed(n),
    }
}

/// Every node of `nodes`, of the given kind, is well formed and every one of
/// its links is valid.
pub open spec fn all_valid(cfg: ConfigView, kind: NodeKind, nodes: Seq<NodeView>) -> bool {
    &&& forall|i: int| 0 <= i < nodes.len() ==> #[trigger] well_formed(kind, nodes[i])
    &&& forall|i: int, k: int|
        0 <= i < nodes.len() && 0 <= k < nodes[i].links.len() ==> #[trigger] link_valid(
            cfg,
            kind,
            nodes[i].id,
            nodes[i].links[k],
        )
}

/// The network that a configuration describes is usable: every drone, client
/// and server is well formed, and every link is valid.
pub open spec fn network_valid(cfg: ConfigView) -> bool {
    &&& all_valid(cfg, NodeKind::Drone, cfg.drones)
    &&& all_valid(cfg, NodeKind::Client, cfg.clients)
    &&& all_valid(cfg, NodeKind::Server, cfg.servers)
}

proof fn lemma_link_error_none(cfg: ConfigView, kind: NodeKind, me: u8, to: u8)
    ensures
        link_error(cfg, kind, me, to) is None <==> link_valid(cfg, kind, me, to),
{
    lemma_first_with_id(cfg.drones, to);
    lemma_first_with_id(cfg.clients, to);
    lemma_first_with_id(cfg.servers, to);
}

proof fn lemma_phases_none(cfg: ConfigView, kind: NodeKind, nodes: Seq<NodeView>)
    ensures
        (first_error(nodes, local_check(kind)) is None && first_error(
            nodes,
            links_check(cfg, kind),
        ) is None) <==> all_valid(cfg, kind, nodes),
{
    lemma_first_error_none(nodes, local_check(kind));
    lemma_first_error_none(nodes, links_check(cfg, kind));
    assert forall|i: int| 0 <= i < nodes.len() implies (#[trigger] local_check(kind)(nodes[i])
        is None <==> well_formed(kind, nodes[i])) by {}
    assert forall|i: int| 0 <= i < nodes.len() implies (#[trigger] links_check(cfg, kind)(
        nodes[i],
    ) is None <==> forall|k: int|
        0 <= k < nodes[i].links.len() ==> #[trigger] link_valid(
            cfg,
            kind,
            nodes[i].id,
            nodes[i].links[k],
        )) by {
        let n = nodes[i];
        let f = link_check(cfg, kind, n.id);
        lemma_first_error_none(n.links, f);
        assert(links_check(cfg, kind)(n) == first_error(n.links, f));
        if first_error(n.links, f) is None {
            assert forall|k: int| 0 <= k < n.links.len() implies #[trigger] link_valid(
                cfg,
                kind,
                n.id,
                n.links[k],
            ) by {
                assert(f(n.links[k]) is None);
                lemma_link_error_none(cfg, kind, n.id, n.links[k]);
            }
        }
        if forall|k: int|
            0 <= k < n.links.len() ==> #[trigger] link_valid(cfg, kind, n.id, n.links[k]) {
            assert forall|k: int| 0 <= k < n.links.len() implies (#[trigger] f(n.links[k]))
                is None by {
                lemma_link_error_none(cfg, kind, n.id, n.links[k]);
            }
        }
    }
    if first_error(nodes, local_check(kind)) is None && first_error(nodes, links_check(cfg, kind))
        is None {
        assert forall|i: int| 0 <= i < nodes.len() implies #[trigger] well_formed(
            kind,
            nodes[i],
        ) by {
            assert(local_check(kind)(nodes[i]) is None);
        }
        assert forall|i: int, k: int|
            0 <= i < nodes.len() && 0 <= k < nodes[i].links.len() implies #[trigger] link_valid(
            cfg,
            kind,
            nodes[i].id,
            nodes[i].links[k],
        ) by {
            assert(links_check(cfg, kind)(nodes[i]) is None);
        }
    }
    if all_valid(cfg, kind, nodes) {
        assert forall|i: int| 0 <= i < nodes.len() implies #[trigger] local_check(kind)(nodes[i])
            is None by {
            assert(well_formed(kind, nodes[i]));
        }
        assert forall|i: int| 0 <= i < nodes.len() implies #[trigger] links_check(cfg, kind)(
            nodes[i],
        ) is None by {
            assert forall|k: int| 0 <= k < nodes[i].links.len() implies #[trigger] link_valid(
                cfg,
                kind,
                nodes[i].id,
                nodes[i].links[k],
            ) by {}
        }
    }
}

/// Validation accepts a configuration exactly when the network it describes is
/// usable: every node is well formed and every link is valid.
pub proof fn lemma_validation_accepts_exactly_valid_networks(config: Config)
    ensures
        config_error(config@) is None <==> network_valid(config@),
{
    let cfg = config@;
    lemma_phases_none(cfg, NodeKind::Drone, cfg.drones);
    lemma_phases_none(cfg, NodeKind::Client, cfg.clients);
    lemma_phases_none(cfg, NodeKind::Server, cfg.servers);
}

/// Every node of a configuration: the drones, then the clients, then the servers.
pub open spec fn all_nodes(cfg: ConfigView) -> Seq<NodeView> {
    cfg.drones + cfg.clients + cfg.servers
}

/// No two nodes of a list share an id.
pub open spec fn unique_ids(nodes: Seq<NodeView>) -> bool {
    forall|a: int, b: int|
        0 <= a < nodes.len() && 0 <= b < nodes.len() && a != b ==> nodes[a].id != nodes[b].id
}

proof fn lemma_unique_first(nodes: Seq<NodeView>, t: int)
    requires
        0 <= t < nodes.len(),
        unique_ids(nodes),
    ensures
        first_with_id(nodes, nodes[t].id) == Some(nodes[t]),
{
    lemma_first_with_id(nodes, nodes[t].id);
    assert(has_id(nodes, nodes[t].id));
    let m = first_with_id(nodes, nodes[t].id)->0;
    let u = choose|u: int| 0 <= u < nodes.len() && nodes[u] == m;
    assert(nodes[u].id == nodes[t].id);
}

proof fn lemma_unique_parts(cfg: ConfigView)
    requires
        unique_ids(all_nodes(cfg)),
    ensures
        unique_ids(cfg.drones),
        unique_ids(cfg.clients),
        unique_ids(cfg.servers),
{
    let all = all_nodes(cfg);
    let d = cfg.drones.len() as int;
    let c = cfg.clients.len() as int;
    assert forall|a: int, b: int|
        0 <= a < cfg.drones.len() && 0 <= b < cfg.drones.len() && a != b implies cfg.drones[a].id
        != cfg.drones[b].id by {
        assert(all[a] == cfg.drones[a] && all[b] == cfg.drones[b]);
    }
    assert forall|a: int, b: int|
        0 <= a < cfg.clients.len() && 0 <= b < cfg.clients.len() && a != b implies cfg.clients[a].id
        != cfg.clients[b].id by {
        assert(all[d + a] == cfg.clients[a] && all[d + b] == cfg.clients[b]);
    }
    assert forall|a: int, b: int|
        0 <= a < cfg.servers.len() && 0 <= b < cfg.servers.len() && a != b implies cfg.servers[a].id
        != cfg.servers[b].id by {
        assert(all[d + c + a] == cfg.servers[a] && all[d + c + b] == cfg.servers[b]);
    }
}

/// In a network that passes validation and whose ids are all distinct, every
/// link is mutual: for each node `a` and each id `b` it lists, some node has
/// the id `b`, and the node with that id lists `a` back.
pub proof fn lemma_valid_links_are_mutual(config: Config)
    requires
        network_valid(config@),
        unique_ids(all_nodes(config@)),
    ensures
        forall|i: int, k: int|
            0 <= i < all_nodes(config@).len() && 0 <= k < all_nodes(config@)[i].links.len()
                ==> has_id(all_nodes(config@), #[trigger] all_nodes(config@)[i].links[k]),
        forall|i: int, k: int, j: int|
            0 <= i < all_nodes(config@).len() && 0 <= k < all_nodes(config@)[i].links.len() && 0
                <= j < all_nodes(config@).len() && #[trigger] all_nodes(config@)[j].id
                == #[trigger] all_nodes(config@)[i].links[k] ==> all_nodes(
                config@,
            )[j].links.contains(all_nodes(config@)[i].id),
{
    let cfg = config@;
    let all = all_nodes(cfg);
    let d = cfg.drones.len() as int;
    let c = cfg.clients.len() as int;
    lemma_unique_parts(cfg);
    assert forall|i: int, k: int|
        0 <= i < all.len() && 0 <= k < all[i].links.len() implies has_id(
        all,
        #[trigger] all[i].links[k],
    ) by {
        let to = all[i].links[k];
        if i < d {
            assert(link_valid(cfg, NodeKind::Drone, cfg.drones[i].id, cfg.drones[i].links[k]));
        } else if i < d + c {
            assert(link_valid(
                cfg,
                NodeKind::Client,
                cfg.clients[i - d].id,
                cfg.clients[i - d].links[k],
            ));
        } else {
            assert(link_valid(
                cfg,
                NodeKind::Server,
                cfg.servers[i - d - c].id,
                cfg.servers[i - d - c].links[k],
            ));
        }
        if has_id(cfg.drones, to) {
            let t = choose|t: int| 0 <= t < cfg.drones.len() && cfg.drones[t].id == to;
            assert(all[t].id == to);
        } else if has_id(cfg.clients, to) {
            let t = choose|t: int| 0 <= t < cfg.clients.len() && cfg.clients[t].id == to;
            assert(all[d + t].id == to);
        } else {
            let t = choose|t: int| 0 <= t < cfg.servers.len() && cfg.servers[t].id == to;
            assert(all[d + c + t].id == to);
        }
    }
    assert forall|i: int, k: int, j: int|
        0 <= i < all.len() && 0 <= k < all[i].links.len() && 0 <= j < all.len() && #[trigger] all[j].id
            == #[trigger] all[i].links[k] implies all[j].links.contains(all[i].id) by {
        let to = all[i].links[k];
        let me = all[i].id;
        if i < d {
            assert(link_valid(cfg, NodeKind::Drone, cfg.drones[i].id, cfg.drones[i].links[k]));
        } else if i < d + c {
            assert(link_valid(
                cfg,
                NodeKind::Client,
                cfg.clients[i - d].id,
                cfg.clients[i - d].links[k],
            ));
        } else {
            assert(link_valid(
                cfg,
                NodeKind::Server,
                cfg.servers[i - d - c].id,
                cfg.servers[i - d - c].links[k],
            ));
        }
        if j < d {
            lemma_unique_first(cfg.drones, j);
        } else if j < d + c {
            lemma_unique_first(cfg.clients, j - d);
            assert(has_id(cfg.clients, to));
        } else {
            lemma_unique_first(cfg.servers, j - d - c);
            assert(has_id(cfg.servers, to));
        }
    }
}

} // verus!
