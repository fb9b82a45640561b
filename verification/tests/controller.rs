use std::collections::HashMap;

use rustafarian_controller::config::{ClientConfig, Config, DroneConfig, ServerConfig};
use rustafarian_controller::controller::{
    delivery_outcome, DroneChannels, NodeChannels, PacketSummary, ShortcutError,
    SimulationController,
};
use rustafarian_controller::layout::{network_layout, TopologyOp};
use rustafarian_controller::nodes::active_drone_kinds;

type Packet = String;
type Controller = SimulationController<Packet, u8, u8, u8, u8, Vec<u8>, (), ()>;
type Nodes = HashMap<u8, NodeChannels<Packet, u8, u8>>;
type Drones = HashMap<u8, DroneChannels<Packet, u8, u8>>;

fn drone(id: u8, links: &[u8]) -> DroneConfig {
    DroneConfig { id, connected_node_ids: links.to_vec(), pdr_bits: 0 }
}

fn small_network() -> Config {
    Config {
        drone: vec![
            drone(1, &[7, 3]),
            drone(2, &[7, 3]),
            drone(3, &[1, 2, 4, 5]),
            drone(4, &[3, 11]),
            drone(5, &[3, 11]),
        ],
        client: vec![ClientConfig { id: 7, connected_drone_ids: vec![1, 2] }],
        server: vec![ServerConfig { id: 11, connected_drone_ids: vec![4, 5] }],
    }
}

/// A controller whose clients and servers are the nodes 1, 3, 4, 5 and 8, with
/// the drones 2, 6 and 9.
fn setup() -> Controller {
    let mut nodes: Nodes = HashMap::new();
    for id in [1u8, 3, 4, 5, 8] {
        nodes.insert(id, NodeChannels::open());
    }
    let mut drones: Drones = HashMap::new();
    for id in [2u8, 6, 9] {
        drones.insert(id, DroneChannels::open());
    }
    SimulationController::new(
        nodes,
        drones,
        Controller::shutdown_signal(),
        Vec::new(),
        Vec::new(),
        (),
    )
}

fn summary(kind: &str, hops: Vec<u8>) -> PacketSummary {
    PacketSummary { session_id: 1, hops, packet_type: kind.to_string() }
}

/// The nodes that the topology records for `config`, in order of first mention.
fn recorded_nodes(config: &Config) -> Vec<u8> {
    let mut nodes = Vec::new();
    for op in network_layout(config, &active_drone_kinds()) {
        if let TopologyOp::AddNode(id) = op {
            if !nodes.contains(&id) {
                nodes.push(id);
            }
        }
    }
    nodes
}

fn built_controller(config: &Config) -> Controller {
    let mut nodes: Nodes = HashMap::new();
    let mut drones: Drones = HashMap::new();
    Controller::init_channels(config, &mut nodes, &mut drones);
    SimulationController::new(
        nodes,
        drones,
        Controller::shutdown_signal(),
        Vec::new(),
        recorded_nodes(config),
        (),
    )
}

#[test]
fn test_simulation_controller_new() {
    let controller: Controller = SimulationController::new(
        HashMap::new(),
        HashMap::new(),
        Controller::shutdown_signal(),
        Vec::new(),
        Vec::new(),
        (),
    );
    assert!(controller.topology.is_empty());
    assert!(controller.nodes_channels.is_empty());
    assert!(controller.drone_channels.is_empty());
    assert!(controller.handles.is_empty());
}

#[test]
fn test_simulation_controller_build() {
    let controller = built_controller(&small_network());
    assert_eq!(controller.drone_channels.len(), 5);
    assert_eq!(controller.nodes_channels.len(), 2);
    assert_eq!(controller.topology.len(), 7);
}

#[test]
fn test_channels_after_build() {
    let controller = built_controller(&small_network());
    for id in [1u8, 2, 3, 4, 5] {
        assert!(controller.drone_channels.contains_key(&id));
    }
    assert!(controller.nodes_channels.contains_key(&7));
    assert!(controller.nodes_channels.contains_key(&11));
    assert!(!controller.nodes_channels.contains_key(&1));

    let node_channel = controller.nodes_channels.get(&7).unwrap();
    assert!(node_channel.send_packet_channel().is_empty());
    assert!(node_channel.receive_packet_channel().is_empty());

    let drone_channel = controller.drone_channels.get(&1).unwrap();
    assert!(drone_channel.send_packet_channel().is_empty());
    assert!(drone_channel.receive_packet_channel().is_empty());
}

#[test]
fn channels_of_one_node_are_connected() {
    let controller = built_controller(&small_network());
    let channels = controller.nodes_channels.get(&7).unwrap();
    channels.send_packet_channel().send("hello".to_string()).unwrap();
    assert_eq!(channels.receive_packet_channel().recv().unwrap(), "hello");
    channels.send_command_channel().send(4).unwrap();
    assert_eq!(channels.receive_command_channel().recv().unwrap(), 4);
    channels.send_response_channel().send(5).unwrap();
    assert_eq!(channels.receive_response_channel().recv().unwrap(), 5);

    let drone = controller.drone_channels.get(&3).unwrap();
    drone.send_command_channel().send(1).unwrap();
    assert_eq!(drone.receive_command_channel().recv().unwrap(), 1);
    drone.send_event_channel().send(2).unwrap();
    assert_eq!(drone.receive_event_channel().recv().unwrap(), 2);
}

#[test]
fn init_channels_keeps_other_ids() {
    let mut nodes: Nodes = HashMap::new();
    let mut drones: Drones = HashMap::new();
    nodes.insert(99, NodeChannels::open());
    drones.insert(98, DroneChannels::open());
    Controller::init_channels(&small_network(), &mut nodes, &mut drones);
    assert_eq!(nodes.len(), 3);
    assert_eq!(drones.len(), 6);
    assert!(nodes.contains_key(&99));
    assert!(drones.contains_key(&98));
}

#[test]
fn test_handle_controller_shortcut_success() {
    let controller = setup();
    let server_receive_packet_channel =
        controller.nodes_channels.get(&3).unwrap().receive_packet_channel().clone();

    let result = controller
        .handle_controller_shortcut("fragment".to_string(), &summary("MsgFragment", vec![1, 2, 3]));

    let message = server_receive_packet_channel.recv().unwrap();
    assert_eq!(message, "fragment");
    let event = result.unwrap();
    assert_eq!(event.session_id, 1);
    assert_eq!(event.packet_type, "MsgFragment");
    assert_eq!(event.source, 1);
    assert_eq!(event.destination, 3);
}

#[test]
fn test_handle_controller_shortcuts() {
    let controller = setup();
    for kind in ["MsgFragment", "Ack", "Nack", "FloodRequest", "FloodResponse"] {
        let result =
            controller.handle_controller_shortcut(kind.to_string(), &summary(kind, vec![1, 2, 3]));
        assert!(result.is_ok());
        let event = result.unwrap();
        assert_eq!(event.packet_type, kind);
        assert_eq!((event.source, event.destination), (1, 3));
    }
    let received: Vec<Packet> =
        controller.nodes_channels.get(&3).unwrap().receive_packet_channel().try_iter().collect();
    assert_eq!(received.len(), 5);
}

#[test]
fn test_handle_controller_shortcut_failure() {
    let controller = setup();
    let result = controller
        .handle_controller_shortcut("fragment".to_string(), &summary("MsgFragment", vec![1, 2, 14]));
    assert!(result.is_err());
    assert_eq!(result.err(), Some(ShortcutError::DestinationNotANode));
}

#[test]
fn shortcut_to_a_drone_is_refused() {
    let controller = setup();
    let result = controller
        .handle_controller_shortcut("ack".to_string(), &summary("Ack", vec![1, 2]));
    assert_eq!(result.err(), Some(ShortcutError::DestinationNotANode));
}

#[test]
fn shortcut_route_of_one_hop() {
    let controller = setup();
    let event = controller
        .handle_controller_shortcut("ack".to_string(), &summary("Ack", vec![8]))
        .unwrap();
    assert_eq!((event.source, event.destination), (8, 8));
}

#[test]
fn delivery_outcome_reports_refusal() {
    let s = summary("Nack", vec![4, 2, 5]);
    assert_eq!(delivery_outcome(&s, false).err(), Some(ShortcutError::SendFailed));
    let event = delivery_outcome(&s, true).unwrap();
    assert_eq!(event.session_id, 1);
    assert_eq!(event.packet_type, "Nack");
    assert_eq!((event.source, event.destination), (4, 5));
}

#[test]
fn test_shut_down_controller() {
    let mut controller = built_controller(&small_network());
    let waiting = controller.shutdown_receiver();
    assert!(controller.signal_shutdown());
    assert_eq!(waiting.recv(), Ok(()));
    controller.reset(Vec::new());
    for handle in controller.handles.iter() {
        assert!(handle.is_none());
    }
    assert!(controller.handles.is_empty());
    assert!(controller.nodes_channels.is_empty());
    assert!(controller.drone_channels.is_empty());
}

#[test]
fn test_rebuild_controller() {
    let config = small_network();
    let mut controller = built_controller(&config);
    let initial_nodes = controller.nodes_channels.len();
    let initial_drones = controller.drone_channels.len();
    let initial_topology = controller.topology.clone();

    controller.reset(Vec::new());
    assert!(controller.topology.is_empty());
    Controller::init_channels(&config, &mut controller.nodes_channels, &mut controller.drone_channels);
    controller.topology = recorded_nodes(&config);

    assert_eq!(initial_nodes, controller.nodes_channels.len());
    assert_eq!(initial_drones, controller.drone_channels.len());
    assert_eq!(initial_topology, controller.topology);
    for id in [1u8, 2, 3, 4, 5] {
        assert!(controller.drone_channels.contains_key(&id));
    }
    assert!(controller.nodes_channels.contains_key(&7));
    assert!(controller.nodes_channels.contains_key(&11));
}

#[test]
fn neighbours_of_a_drone() {
    let controller = setup();
    // 1 and 3 are clients or servers, 2 and 9 drones, 7 and 77 nobody.
    let picked = Controller::drone_neighbors(
        &controller.drone_channels,
        &controller.nodes_channels,
        &vec![7, 1, 2, 77, 3, 9],
    );
    let ids: Vec<u8> = picked.iter().map(|(id, _)| *id).collect();
    assert_eq!(ids, vec![1, 2, 3, 9]);
    picked[0].1.send("to one".to_string()).unwrap();
    assert_eq!(
        controller.nodes_channels.get(&1).unwrap().receive_packet_channel().recv().unwrap(),
        "to one"
    );
    picked[1].1.send("to two".to_string()).unwrap();
    assert_eq!(
        controller.drone_channels.get(&2).unwrap().receive_packet_channel().recv().unwrap(),
        "to two"
    );
}

#[test]
fn drone_links_of_a_client() {
    let controller = setup();
    let picked = Controller::drone_links(&controller.drone_channels, &vec![1, 6, 2]);
    let ids: Vec<u8> = picked.iter().map(|(id, _)| *id).collect();
    assert_eq!(ids, vec![6, 2]);
}

#[test]
fn neighbour_with_both_kinds_of_channels_gets_the_node_sender() {
    let mut controller = setup();
    controller.drone_channels.insert(3, DroneChannels::open());
    let picked = Controller::drone_neighbors(
        &controller.drone_channels,
        &controller.nodes_channels,
        &vec![3],
    );
    assert_eq!(picked.len(), 1);
    picked[0].1.send("to three".to_string()).unwrap();
    assert_eq!(
        controller.nodes_channels.get(&3).unwrap().receive_packet_channel().try_recv().unwrap(),
        "to three"
    );
    assert!(controller.drone_channels.get(&3).unwrap().receive_packet_channel().is_empty());
}

#[test]
fn destination_sender_is_the_last_hop_channel() {
    let controller = setup();
    let sender = controller.destination_sender(&summary("Ack", vec![2, 6, 4])).unwrap();
    sender.send("to four".to_string()).unwrap();
    assert_eq!(
        controller.nodes_channels.get(&4).unwrap().receive_packet_channel().recv().unwrap(),
        "to four"
    );
    assert!(controller.destination_sender(&summary("Ack", vec![1, 2])).is_none());
}

#[test]
fn shutdown_sender_signals_the_controller_receiver() {
    let controller = setup();
    controller.shutdown_sender().send(()).unwrap();
    assert_eq!(controller.shutdown_receiver().try_recv(), Ok(()));
}

#[test]
fn reset_keeps_the_shutdown_signal() {
    let mut controller = built_controller(&small_network());
    let waiting = controller.shutdown_receiver();
    controller.reset(Vec::new());
    controller.reset(Vec::new());
    assert!(controller.signal_shutdown());
    assert_eq!(waiting.recv(), Ok(()));
    assert!(controller.handles.is_empty());
}
