use std::collections::{HashMap, HashSet};

use rustafarian_controller::config::{ClientConfig, Config, DroneConfig, ServerConfig};
use rustafarian_controller::layout::{network_layout, TopologyOp};
use rustafarian_controller::nodes::{active_drone_kinds, DroneKind, NodeLabel, NodeType};

fn drone(id: u8, links: &[u8]) -> DroneConfig {
    DroneConfig { id, connected_node_ids: links.to_vec(), pdr_bits: 0 }
}

fn small_network() -> Config {
    Config {
        drone: vec![
            DroneConfig { id: 1, connected_node_ids: vec![7, 3], pdr_bits: 0 },
            drone(2, &[7, 3]),
            drone(3, &[1, 2, 4, 5]),
            drone(4, &[3, 11]),
            drone(5, &[3, 11]),
        ],
        client: vec![ClientConfig { id: 7, connected_drone_ids: vec![1, 2] }],
        server: vec![ServerConfig { id: 11, connected_drone_ids: vec![4, 5] }],
    }
}

/// The topology that results from applying the changes in order.
struct Recorded {
    nodes: HashSet<u8>,
    edges: HashMap<u8, HashSet<u8>>,
    types: HashMap<u8, String>,
    labels: HashMap<u8, String>,
}

fn apply(ops: &[TopologyOp]) -> Recorded {
    let mut t = Recorded {
        nodes: HashSet::new(),
        edges: HashMap::new(),
        types: HashMap::new(),
        labels: HashMap::new(),
    };
    for op in ops {
        match op {
            TopologyOp::AddNode(id) => {
                t.nodes.insert(*id);
            }
            TopologyOp::AddEdge(a, b) => {
                t.edges.entry(*a).or_default().insert(*b);
            }
            TopologyOp::SetNodeType(id, ty) => {
                t.types.insert(*id, ty.as_str().to_string());
            }
            TopologyOp::SetLabel(id, label) => {
                t.labels.insert(*id, label.as_str().to_string());
            }
        }
    }
    t
}

#[test]
fn test_topology_after_build() {
    let ops = network_layout(&small_network(), &active_drone_kinds());
    let topology = apply(&ops);
    for id in [1, 2, 3, 4, 5, 7, 11] {
        assert!(topology.nodes.contains(&id));
    }
    assert_eq!(topology.nodes.len(), 7);

    for id in [1, 2, 3, 4, 5] {
        assert_eq!(topology.types[&id], "drone");
    }
    assert_eq!(topology.types[&7], "browser_client");
    assert_eq!(topology.types[&11], "Text");

    let has = |a: u8, b: u8| topology.edges.get(&a).unwrap().contains(&b);
    assert!(has(1, 7));
    assert!(has(1, 3));
    assert!(has(2, 7));
    assert!(has(2, 3));
    assert!(has(3, 1));
    assert!(has(3, 2));
    assert!(has(3, 4));
    assert!(has(3, 5));
    assert!(has(4, 3));
    assert!(has(4, 11));
    assert!(has(5, 3));
    assert!(has(5, 11));
    assert!(has(11, 4));
    assert!(has(11, 5));
}

#[test]
fn layout_labels_drones_in_turn() {
    let ops = network_layout(&small_network(), &active_drone_kinds());
    let topology = apply(&ops);
    assert_eq!(topology.labels[&1], "C++ Enjoyers drone");
    assert_eq!(topology.labels[&2], "Get Droned drone");
    assert_eq!(topology.labels[&3], "Rusteeze drone");
    assert_eq!(topology.labels[&4], "Dr One drone");
    assert_eq!(topology.labels[&5], "Rust Do It drone");
    assert_eq!(topology.labels[&7], "Browser client");
    assert_eq!(topology.labels[&11], "Text server");
}

#[test]
fn layout_order_of_changes() {
    let config = Config {
        drone: vec![drone(1, &[2])],
        client: vec![ClientConfig { id: 2, connected_drone_ids: vec![1] }],
        server: vec![],
    };
    let ops = network_layout(&config, &vec![DroneKind::Rusty]);
    assert_eq!(
        ops,
        vec![
            TopologyOp::AddNode(1),
            TopologyOp::AddEdge(1, 2),
            TopologyOp::SetNodeType(1, NodeType::Drone),
            TopologyOp::SetLabel(1, NodeLabel::Drone(DroneKind::Rusty)),
            TopologyOp::AddNode(2),
            TopologyOp::SetLabel(2, NodeLabel::ChatClient),
            TopologyOp::SetNodeType(2, NodeType::ChatClient),
            TopologyOp::AddEdge(2, 1),
        ]
    );
}
