//! The topology that the controller records for a configuration, written as the
//! sequence of changes that are made to it while the network is built: nodes,
//! links, node types and labels.
use vstd::prelude::*;
use crate::config::{Config, ConfigView, NetworkNode, NodeKind, NodeView, all_nodes, nodes_view};
use crate::nodes::{
    DroneKind, NodeLabel, NodeType, client_kind, client_kind_of,
    client_label_of, client_type_of, server_kind, server_kind_of, server_label_of, server_type_of,
};

verus! {

/// One change to the recorded topology.
#[derive(Clone, Copy, Debug, PartialEq, Eq, Structural)]
pub enum TopologyOp {
    AddNode(u8),
    AddEdge(u8, u8),
    SetNodeType(u8, NodeType),
    SetLabel(u8, NodeLabel),
}

/// The links of a node, from the node to each neighbour in turn.
pub open spec fn edge_ops(id: u8, links: Seq<u8>) -> Seq<TopologyOp> {
    links.map_values(|to: u8| TopologyOp::AddEdge(id, to))
}

/// A node's links are recorded as one edge per link, in the order of the
/// links, each from the node itself to that neighbour, and nothing else.
pub proof fn lemma_one_edge_per_link(id: u8, links: Seq<u8>)
    ensures
        edge_ops(id, links).len() == links.len(),
        forall|k: int| 0 <= k < links.len() ==> #[trigger] edge_ops(id, links)[k] == TopologyOp::AddEdge(id, links[k]),
        forall|op: TopologyOp| #[trigger] edge_ops(id, links).contains(op) ==> exists|k: int|
            0 <= k < links.len() && op == TopologyOp::AddEdge(id, #[trigger] links[k]),
{
    let e = edge_ops(id, links);
    assert forall|op: TopologyOp| #[trigger] e.contains(op) implies exists|k: int|
        0 <= k < links.len() && op == TopologyOp::AddEdge(id, #[trigger] links[k]) by {
        let k = choose|k: int| 0 <= k < e.len() && e[k] == op;
        assert(op == TopologyOp::AddEdge(id, links[k]));
    }
}

/// What is recorded of a drone when its channels are made: the node, its links,
/// and its type.
pub open spec fn drone_ops(n: NodeView) -> Seq<TopologyOp> {
    seq![TopologyOp::AddNode(n.id)] + edge_ops(n.id, n.links) + seq![
        TopologyOp::SetNodeType(n.id, NodeType::Drone),
    ]
}

/// What is recorded of a client: the node, its label and type, and its links.
pub open spec fn client_ops(n: NodeView) -> Seq<TopologyOp> {
    let kind = client_kind_of(n.id);
    seq![
        TopologyOp::AddNode(n.id),
        TopologyOp::SetLabel(n.id, client_label_of(kind)),
        TopologyOp::SetNodeType(n.id, client_type_of(kind)),
    ] + edge_ops(n.id, n.links)
}

/// What is recorded of a server: the node, its links, and its label and type.
pub open spec fn server_ops(n: NodeView) -> Seq<TopologyOp> {
    let kind = server_kind_of(n.id);
    seq![TopologyOp::AddNode(n.id)] + edge_ops(n.id, n.links) + seq![
        TopologyOp::SetLabel(n.id, server_label_of(kind)),
        TopologyOp::SetNodeType(n.id, server_type_of(kind)),
    ]
}

/// The changes for the nodes of `nodes`, node after node.
pub open spec fn ops_of(nodes: Seq<NodeView>, f: spec_fn(NodeView) -> Seq<TopologyOp>) -> Seq<
    TopologyOp,
>
    decreases nodes.len(),
{
    if nodes.len() == 0 {
        Seq::empty()
    } else {
        ops_of(nodes.drop_last(), f) + f(nodes.last())
    }
}

pub open spec fn drone_ops_fn() -> spec_fn(NodeView) -> Seq<TopologyOp> {
    |n: NodeView| drone_ops(n)
}

pub open spec fn client_ops_fn() -> spec_fn(NodeView) -> Seq<TopologyOp> {
    |n: NodeView| client_ops(n)
}

pub open spec fn server_ops_fn() -> spec_fn(NodeView) -> Seq<TopologyOp> {
    |n: NodeView| server_ops(n)
}

/// What is recorded of one node of the given kind.
pub open spec fn kind_ops_fn(kind: NodeKind) -> spec_fn(NodeView) -> Seq<TopologyOp> {
    match kind {
        NodeKind::Drone => drone_ops_fn(),
        NodeKind::Client => client_ops_fn(),
        NodeKind::Server => server_ops_fn(),
    }
}

/// The labels of the drones: the drone at position `i` is labelled with the
/// implementation handed out to it in turn.
pub open spec fn drone_label_ops(drones: Seq<NodeView>, kinds: Seq<DroneKind>) -> Seq<TopologyOp> {
    Seq::new(
        drones.len(),
        |i: int| TopologyOp::SetLabel(drones[i].id, NodeLabel::Drone(kinds[i % (kinds.len() as int)])),
    )
}

/// Every change made to the topology while a network is built from `cfg`, in
/// order: the drones with their links and types, the drones' labels, then the
/// clients, then the servers.
pub open spec fn layout(cfg: ConfigView, kinds: Seq<DroneKind>) -> Seq<TopologyOp> {
    ops_of(cfg.drones, drone_ops_fn()) + drone_label_ops(cfg.drones, kinds) + ops_of(
        cfg.clients,
        client_ops_fn(),
    ) + ops_of(cfg.servers, server_ops_fn())
}

proof fn lemma_ops_of_step(nodes: Seq<NodeView>, f: spec_fn(NodeView) -> Seq<TopologyOp>, i: int)
    requires
        0 <= i < nodes.len(),
    ensures
        ops_of(nodes.take(i + 1), f) == ops_of(nodes.take(i), f) + f(nodes[i]),
{
    assert(nodes.take(i + 1).drop_last() =~= nodes.take(i));
}

/// Appends the links from `id` to each id of `links`.
fn push_edges(ops: &mut Vec<TopologyOp>, id: u8, links: &Vec<u8>)
    ensures
        final(ops)@ == old(ops)@ + edge_ops(id, links@),
{
    let ghost start = ops@;
    let mut j: usize = 0;
    while j < links.len()
        invariant
            j <= links.len(),
            ops@ == start + edge_ops(id, links@.take(j as int)),
        decreases links.len() - j,
    {
        ops.push(TopologyOp::AddEdge(id, links[j]));
        proof {
            assert(edge_ops(id, links@.take(j + 1)) =~= edge_ops(id, links@.take(j as int)).push(
                TopologyOp::AddEdge(id, links@[j as int]),
            ));
        }
        j += 1;
    }
    assert(links@.take(links.len() as int) =~= links@);
}

/// Appends what is recorded of each node of `nodes`, of the given kind.
fn push_node_ops<N: NetworkNode>(ops: &mut Vec<TopologyOp>, nodes: &Vec<N>, kind: NodeKind)
    ensures
        final(ops)@ == old(ops)@ + ops_of(nodes_view(nodes@), kind_ops_fn(kind)),
{
    let ghost all = nodes_view(nodes@);
    let ghost f = kind_ops_fn(kind);
    let ghost start = ops@;
    let mut i: usize = 0;
    while i < nodes.len()
        invariant
            i <= nodes.len(),
            all == nodes_view(nodes@),
            f == kind_ops_fn(kind),
            ops@ == start + ops_of(all.take(i as int), f),
        decreases nodes.len() - i,
    {
        let node = &nodes[i];
        let id = node.node_id();
        let ghost before = ops@;
        match kind {
            NodeKind::Drone => {
                ops.push(TopologyOp::AddNode(id));
                push_edges(ops, id, node.links());
                ops.push(TopologyOp::SetNodeType(id, NodeType::Drone));
            },
            NodeKind::Client => {
                let client = client_kind(id);
                ops.push(TopologyOp::AddNode(id));
                ops.push(TopologyOp::SetLabel(id, client.label()));
                ops.push(TopologyOp::SetNodeType(id, client.node_type()));
                push_edges(ops, id, node.links());
            },
            NodeKind::Server => {
                let server = server_kind(id);
                ops.push(TopologyOp::AddNode(id));
                push_edges(ops, id, node.links());
                ops.push(TopologyOp::SetLabel(id, server.label()));
                ops.push(TopologyOp::SetNodeType(id, server.node_type()));
            },
        }
        proof {
            lemma_ops_of_step(all, f, i as int);
            assert(all[i as int] == node.node());
            assert(ops@ =~= before + f(all[i as int]));
        }
        i += 1;
    }
    assert(all.take(nodes.len() as int) =~= all);
}

/// Every change made to the topology while a network is built from `config`,
/// where the drones are handed the implementations of `kinds` in turn.
pub fn network_layout(config: &Config, kinds: &Vec<DroneKind>) -> (r: Vec<TopologyOp>)
    requires
        kinds.len() > 0,
    ensures
        r@ == layout(config@, kinds@),
{
    let mut ops: Vec<TopologyOp> = Vec::new();
    push_node_ops(&mut ops, &config.drone, NodeKind::Drone);
    let ghost drones = nodes_view(config.drone@);
    let ghost before = ops@;
    let mut i: usize = 0;
    while i < config.drone.len()
        invariant
            i <= config.drone.len(),
            kinds.len() > 0,
            drones == nodes_view(config.drone@),
            ops@ == before + drone_label_ops(drones, kinds@).take(i as int),
        decreases config.drone.len() - i,
    {
        let kind = crate::nodes::drone_kind_at(kinds, i);
        ops.push(TopologyOp::SetLabel(config.drone[i].id, NodeLabel::Drone(kind)));
        proof {
            assert(drone_label_ops(drones, kinds@).take(i + 1) =~= drone_label_ops(
                drones,
                kinds@,
            ).take(i as int).push(drone_label_ops(drones, kinds@)[i as int]));
        }
        i += 1;
    }
    assert(drone_label_ops(drones, kinds@).take(config.drone.len() as int) =~= drone_label_ops(
        drones,
        kinds@,
    ));
    push_node_ops(&mut ops, &config.client, NodeKind::Client);
    push_node_ops(&mut ops, &config.server, NodeKind::Server);
    proof {
        assert(ops@ =~= layout(config@, kinds@));
    }
    ops
}

/// Whatever is recorded of one node is part of what is recorded of the list.
proof fn lemma_ops_of_contains(
    nodes: Seq<NodeView>,
    f: spec_fn(NodeView) -> Seq<TopologyOp>,
    i: int,
    op: TopologyOp,
)
    requires
        0 <= i < nodes.len(),
        f(nodes[i]).contains(op),
    ensures
        ops_of(nodes, f).contains(op),
    decreases nodes.len(),
{
    let prefix = ops_of(nodes.drop_last(), f);
    let tail = f(nodes.last());
    let own = f(nodes[i]);
    let t = choose|t: int| 0 <= t < own.len() && #[trigger] own[t] == op;
    if i == nodes.len() - 1 {
        assert(ops_of(nodes, f)[prefix.len() + t] == op);
    } else {
        assert(nodes.drop_last()[i] == nodes[i]);
        lemma_ops_of_contains(nodes.drop_last(), f, i, op);
        let u = choose|u: int| 0 <= u < prefix.len() && #[trigger] prefix[u] == op;
        assert(ops_of(nodes, f)[u] == op);
    }
}

/// The node itself and each of its links are recorded for every kind of node.
proof fn lemma_kind_ops_record(kind: NodeKind, n: NodeView, k: int)
    requires
        0 <= k < n.links.len(),
    ensures
        kind_ops_fn(kind)(n).contains(TopologyOp::AddNode(n.id)),
        kind_ops_fn(kind)(n).contains(TopologyOp::AddEdge(n.id, n.links[k])),
{
    let ops = kind_ops_fn(kind)(n);
    let edges = edge_ops(n.id, n.links);
    match kind {
        NodeKind::Client => {
            assert(ops[0] == TopologyOp::AddNode(n.id));
            assert(ops[3 + k] == edges[k]);
        },
        _ => {
            assert(ops[0] == TopologyOp::AddNode(n.id));
            assert(ops[1 + k] == edges[k]);
        },
    }
}

proof fn lemma_nodes_recorded(nodes: Seq<NodeView>, kind: NodeKind)
    ensures
        forall|i: int|
            0 <= i < nodes.len() ==> ops_of(nodes, kind_ops_fn(kind)).contains(
                TopologyOp::AddNode(#[trigger] nodes[i].id),
            ),
        forall|i: int, k: int|
            0 <= i < nodes.len() && 0 <= k < nodes[i].links.len() ==> ops_of(
                nodes,
                kind_ops_fn(kind),
            ).contains(TopologyOp::AddEdge(nodes[i].id, #[trigger] nodes[i].links[k])),
{
    let f = kind_ops_fn(kind);
    assert forall|i: int| 0 <= i < nodes.len() implies ops_of(nodes, f).contains(
        TopologyOp::AddNode(#[trigger] nodes[i].id),
    ) by {
        let n = nodes[i];
        let ops = f(n);
        assert(ops[0] == TopologyOp::AddNode(n.id));
        lemma_ops_of_contains(nodes, f, i, TopologyOp::AddNode(n.id));
    }
    assert forall|i: int, k: int| 0 <= i < nodes.len() && 0 <= k < nodes[i].links.len() implies ops_of(
        nodes,
        f,
    ).contains(TopologyOp::AddEdge(nodes[i].id, #[trigger] nodes[i].links[k])) by {
        lemma_kind_ops_record(kind, nodes[i], k);
        lemma_ops_of_contains(nodes, f, i, TopologyOp::AddEdge(nodes[i].id, nodes[i].links[k]));
    }
}

proof fn lemma_contains_in_sum(a: Seq<TopologyOp>, b: Seq<TopologyOp>, op: TopologyOp)
    ensures
        a.contains(op) ==> (a + b).contains(op),
        b.contains(op) ==> (a + b).contains(op),
{
    if a.contains(op) {
        let t = choose|t: int| 0 <= t < a.len() && #[trigger] a[t] == op;
        assert((a + b)[t] == op);
    }
    if b.contains(op) {
        let t = choose|t: int| 0 <= t < b.len() && #[trigger] b[t] == op;
        assert((a + b)[a.len() + t] == op);
    }
}

/// Building a network records every configured node in the topology, and
/// every link that a node lists as an edge from that node.
pub proof fn lemma_layout_records_every_node_and_link(config: Config, kinds: Seq<DroneKind>)
    ensures
        forall|i: int|
            0 <= i < all_nodes(config@).len() ==> layout(config@, kinds).contains(
                TopologyOp::AddNode(#[trigger] all_nodes(config@)[i].id),
            ),
        forall|i: int, k: int|
            0 <= i < all_nodes(config@).len() && 0 <= k < all_nodes(config@)[i].links.len()
                ==> layout(config@, kinds).contains(
                TopologyOp::AddEdge(
                    all_nodes(config@)[i].id,
                    #[trigger] all_nodes(config@)[i].links[k],
                ),
            ),
{
    let cfg = config@;
    let all = all_nodes(cfg);
    let d = cfg.drones.len() as int;
    let c = cfg.clients.len() as int;
    let a = ops_of(cfg.drones, drone_ops_fn());
    let labels = drone_label_ops(cfg.drones, kinds);
    let b = ops_of(cfg.clients, client_ops_fn());
    let e = ops_of(cfg.servers, server_ops_fn());
    lemma_nodes_recorded(cfg.drones, NodeKind::Drone);
    lemma_nodes_recorded(cfg.clients, NodeKind::Client);
    lemma_nodes_recorded(cfg.servers, NodeKind::Server);
    assert(kind_ops_fn(NodeKind::Drone) == drone_ops_fn());
    assert(kind_ops_fn(NodeKind::Client) == client_ops_fn());
    assert(kind_ops_fn(NodeKind::Server) == server_ops_fn());
    assert(layout(cfg, kinds) == a + labels + b + e);
    assert forall|op: TopologyOp|
        a.contains(op) || b.contains(op) || e.contains(op) implies #[trigger] layout(
        cfg,
        kinds,
    ).contains(op) by {
        lemma_contains_in_sum(a, labels, op);
        lemma_contains_in_sum(a + labels, b, op);
        lemma_contains_in_sum(a + labels + b, e, op);
    }
    assert forall|i: int| 0 <= i < all.len() implies layout(cfg, kinds).contains(
        TopologyOp::AddNode(#[trigger] all[i].id),
    ) by {
        if i < d {
            assert(all[i] == cfg.drones[i]);
            assert(a.contains(TopologyOp::AddNode(cfg.drones[i].id)));
        } else if i < d + c {
            assert(all[i] == cfg.clients[i - d]);
            assert(b.contains(TopologyOp::AddNode(cfg.clients[i - d].id)));
        } else {
            assert(all[i] == cfg.servers[i - d - c]);
            assert(e.contains(TopologyOp::AddNode(cfg.servers[i - d - c].id)));
        }
    }
    assert forall|i: int, k: int|
        0 <= i < all.len() && 0 <= k < all[i].links.len() implies layout(cfg, kinds).contains(
        TopologyOp::AddEdge(all[i].id, #[trigger] all[i].links[k]),
    ) by {
        if i < d {
            assert(all[i] == cfg.drones[i]);
            assert(a.contains(TopologyOp::AddEdge(cfg.drones[i].id, cfg.drones[i].links[k])));
        } else if i < d + c {
            assert(all[i] == cfg.clients[i - d]);
            assert(b.contains(
                TopologyOp::AddEdge(cfg.clients[i - d].id, cfg.clients[i - d].links[k]),
            ));
        } else {
            assert(all[i] == cfg.servers[i - d - c]);
            assert(e.contains(
                TopologyOp::AddEdge(cfg.servers[i - d - c].id, cfg.servers[i - d - c].links[k]),
            ));
        }
    }
}

/// Whatever is recorded of a list of nodes is recorded of one of its nodes.
proof fn lemma_ops_of_member(
    nodes: Seq<NodeView>,
    f: spec_fn(NodeView) -> Seq<TopologyOp>,
    op: TopologyOp,
)
    requires
        ops_of(nodes, f).contains(op),
    ensures
        exists|i: int| 0 <= i < nodes.len() && #[trigger] f(nodes[i]).contains(op),
    decreases nodes.len(),
{
    let all = ops_of(nodes, f);
    let prefix = ops_of(nodes.drop_last(), f);
    let tail = f(nodes.last());
    let t = choose|t: int| 0 <= t < all.len() && #[trigger] all[t] == op;
    if t < prefix.len() {
        assert(prefix[t] == op);
        lemma_ops_of_member(nodes.drop_last(), f, op);
        let i = choose|i: int|
            0 <= i < nodes.drop_last().len() && #[trigger] f(nodes.drop_last()[i]).contains(op);
        assert(nodes.drop_last()[i] == nodes[i]);
        assert(f(nodes[i]).contains(op));
    } else {
        assert(tail[t - prefix.len()] == op);
        assert(f(nodes[nodes.len() - 1]).contains(op));
    }
}

/// A link recorded of one node goes from that node to an id it lists.
proof fn lemma_kind_edge_from_link(kind: NodeKind, n: NodeView, a: u8, b: u8)
    requires
        kind_ops_fn(kind)(n).contains(TopologyOp::AddEdge(a, b)),
    ensures
        a == n.id,
        n.links.contains(b),
{
    let ops = kind_ops_fn(kind)(n);
    let edges = edge_ops(n.id, n.links);
    let t = choose|t: int| 0 <= t < ops.len() && #[trigger] ops[t] == TopologyOp::AddEdge(a, b);
    let start: int = match kind {
        NodeKind::Client => 3,
        _ => 1,
    };
    assert(start <= t < start + edges.len()) by {
        match kind {
            NodeKind::Drone => {
                assert(ops == seq![TopologyOp::AddNode(n.id)] + edges + seq![
                    TopologyOp::SetNodeType(n.id, NodeType::Drone),
                ]);
            },
            NodeKind::Client => {},
            NodeKind::Server => {},
        }
    }
    assert(ops[t] == edges[t - start]);
    assert(n.links[t - start] == b);
}

proof fn lemma_sum_member(x: Seq<TopologyOp>, y: Seq<TopologyOp>, op: TopologyOp)
    requires
        (x + y).contains(op),
    ensures
        x.contains(op) || y.contains(op),
{
    let t = choose|t: int| 0 <= t < (x + y).len() && #[trigger] (x + y)[t] == op;
    if t < x.len() {
        assert(x[t] == op);
    } else {
        assert(y[t - x.len()] == op);
    }
}

proof fn lemma_list_edges_from_links(nodes: Seq<NodeView>, kind: NodeKind, a: u8, b: u8)
    requires
        ops_of(nodes, kind_ops_fn(kind)).contains(TopologyOp::AddEdge(a, b)),
    ensures
        exists|i: int| 0 <= i < nodes.len() && nodes[i].id == a && #[trigger] nodes[i].links.contains(b),
{
    lemma_ops_of_member(nodes, kind_ops_fn(kind), TopologyOp::AddEdge(a, b));
    let i = choose|i: int|
        0 <= i < nodes.len() && #[trigger] kind_ops_fn(kind)(nodes[i]).contains(
            TopologyOp::AddEdge(a, b),
        );
    lemma_kind_edge_from_link(kind, nodes[i], a, b);
}

/// Building a network records no link that the configuration does not hold:
/// every edge from `a` to `b` in the topology is a link that some node with
/// the id `a` lists.
pub proof fn lemma_layout_edges_come_from_links(config: Config, kinds: Seq<DroneKind>)
    ensures
        forall|a: u8, b: u8|
            #[trigger] layout(config@, kinds).contains(TopologyOp::AddEdge(a, b)) ==> exists|i: int|
                0 <= i < all_nodes(config@).len() && all_nodes(config@)[i].id == a
                    && all_nodes(config@)[i].links.contains(b),
{
    let cfg = config@;
    let all = all_nodes(cfg);
    let d = cfg.drones.len() as int;
    let c = cfg.clients.len() as int;
    let x = ops_of(cfg.drones, drone_ops_fn());
    let labels = drone_label_ops(cfg.drones, kinds);
    let y = ops_of(cfg.clients, client_ops_fn());
    let z = ops_of(cfg.servers, server_ops_fn());
    assert(kind_ops_fn(NodeKind::Drone) == drone_ops_fn());
    assert(kind_ops_fn(NodeKind::Client) == client_ops_fn());
    assert(kind_ops_fn(NodeKind::Server) == server_ops_fn());
    assert forall|a: u8, b: u8|
        #[trigger] layout(cfg, kinds).contains(TopologyOp::AddEdge(a, b)) implies exists|i: int|
        0 <= i < all.len() && all[i].id == a && all[i].links.contains(b) by {
        let op = TopologyOp::AddEdge(a, b);
        assert(layout(cfg, kinds) == x + labels + y + z);
        lemma_sum_member(x + labels + y, z, op);
        if z.contains(op) {
            lemma_list_edges_from_links(cfg.servers, NodeKind::Server, a, b);
            let i = choose|i: int|
                0 <= i < cfg.servers.len() && cfg.servers[i].id == a
                    && #[trigger] cfg.servers[i].links.contains(b);
            assert(all[d + c + i] == cfg.servers[i]);
        } else {
            lemma_sum_member(x + labels, y, op);
            if y.contains(op) {
                lemma_list_edges_from_links(cfg.clients, NodeKind::Client, a, b);
                let i = choose|i: int|
                    0 <= i < cfg.clients.len() && cfg.clients[i].id == a
                        && #[trigger] cfg.clients[i].links.contains(b);
                assert(all[d + i] == cfg.clients[i]);
            } else {
                lemma_sum_member(x, labels, op);
                if labels.contains(op) {
                    let t = choose|t: int| 0 <= t < labels.len() && #[trigger] labels[t] == op;
                    assert(false);
                } else {
                    lemma_list_edges_from_links(cfg.drones, NodeKind::Drone, a, b);
                    let i = choose|i: int|
                        0 <= i < cfg.drones.len() && cfg.drones[i].id == a
                            && #[trigger] cfg.drones[i].links.contains(b);
                    assert(all[i] == cfg.drones[i]);
                }
            }
        }
    }
}

} // verus!
