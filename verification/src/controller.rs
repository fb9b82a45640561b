//! The state that the simulation controller keeps: the channels of every node,
//! the shutdown signal, the handles of the running nodes and the topology; and
//! the decisions it takes over that state: which channels a configuration
//! needs, which neighbours each node is handed, and where a packet that a drone
//! passes to the controller is delivered.
use vstd::prelude::*;
use std::collections::HashMap;
use crossbeam_channel::{Receiver, Sender};
use crate::config::{Config, NodeView, nodes_view};
use crate::layout::layout;
use crate::nodes::DroneKind;

verus! {

broadcast use vstd::std_specs::hash::group_hash_axioms;

#[verifier::external_type_specification]
#[verifier::external_body]
#[verifier::reject_recursive_types(T)]
pub struct ExSender<T>(Sender<T>);

#[verifier::external_type_specification]
#[verifier::external_body]
#[verifier::reject_recursive_types(T)]
pub struct ExReceiver<T>(Receiver<T>);

/// Opens a new channel with `crossbeam_channel::unbounded`. Nothing is stated
/// of the two ends beyond their types.
#[verifier::external_body]
fn open_channel<T>() -> (Sender<T>, Receiver<T>) {
    crossbeam_channel::unbounded::<T>()
}

/// Sends `msg` with `crossbeam_channel::Sender::send`, and tells whether the
/// message was accepted. The outcome depends on whether a receiver is still
/// connected, which nothing here records, so it is not stated. The source
/// blocks on a full or zero-capacity channel; every sender that reaches this
/// function is an end of an unbounded channel opened by `open_channel` (the
/// ends are private to `NodeChannels`, `DroneChannels` and `ShutdownSignal`),
/// on which a send returns at once.
#[verifier::external_body]
fn send_message<T>(sender: &Sender<T>, msg: T) -> bool {
    sender.send(msg).is_ok()
}

/// Another handle on the same channel, by `Clone` of `crossbeam_channel::Sender`.
/// The clone holds what the original holds: the same kind of channel and the
/// same pointer to its shared state (the source raises a reference count and
/// copies the pointer); so the two handles are equal. The source aborts the
/// process if the count of senders would pass `isize::MAX`, which nothing here
/// can state.
#[verifier::external_body]
fn clone_sender<T>(sender: &Sender<T>) -> (r: Sender<T>)
    ensures
        r == *sender,
{
    sender.clone()
}

/// Another handle on the same channel, by `Clone` of `crossbeam_channel::Receiver`.
/// The clone holds what the original holds: the same kind of channel and the
/// same pointer to its shared state (the source raises a reference count and
/// copies the pointer, or clones an `Arc`); so the two handles are equal.
/// The source aborts the process if the count of receivers would pass
/// `isize::MAX`, which nothing here can state.
#[verifier::external_body]
fn clone_receiver<T>(receiver: &Receiver<T>) -> (r: Receiver<T>)
    ensures
        r == *receiver,
{
    receiver.clone()
}

/// The channels of a client or a server: its packets, the commands that the
/// controller sends it, and its responses to the controller. The ends are
/// private and only `open` makes them, so every end is one of an unbounded
/// channel, on which a send never waits.
#[verifier::reject_recursive_types(P)]
#[verifier::reject_recursive_types(C)]
#[verifier::reject_recursive_types(R)]
pub struct NodeChannels<P, C, R> {
    send_packet_channel: Sender<P>,
    receive_packet_channel: Receiver<P>,
    send_command_channel: Sender<C>,
    receive_command_channel: Receiver<C>,
    receive_response_channel: Receiver<R>,
    send_response_channel: Sender<R>,
}

/// The channels of a drone: the commands that the controller sends it, its
/// packets, and the events it reports to the controller. The ends are private
/// and only `open` makes them, so every end is one of an unbounded channel.
#[verifier::reject_recursive_types(P)]
#[verifier::reject_recursive_types(C)]
#[verifier::reject_recursive_types(E)]
pub struct DroneChannels<P, C, E> {
    send_command_channel: Sender<C>,
    receive_command_channel: Receiver<C>,
    send_packet_channel: Sender<P>,
    receive_packet_channel: Receiver<P>,
    receive_event_channel: Receiver<E>,
    send_event_channel: Sender<E>,
}

impl<P, C, R> NodeChannels<P, C, R> {
    /// Fresh channels for a client or a server. That each sending end reaches
    /// the receiving end opened with it is left unsaid: a channel handle is
    /// opaque here, and which channel it reaches is an address, which no name
    /// may stand for.
    pub fn open() -> (r: Self) {
        let (send_command_channel, receive_command_channel) = open_channel::<C>();
        let (send_response_channel, receive_response_channel) = open_channel::<R>();
        let (send_packet_channel, receive_packet_channel) = open_channel::<P>();
        NodeChannels {
            send_packet_channel,
            receive_packet_channel,
            send_command_channel,
            receive_command_channel,
            receive_response_channel,
            send_response_channel,
        }
    }

    /// The end on which packets are sent to the node.
    pub closed spec fn packet_sender(self) -> Sender<P> {
        self.send_packet_channel
    }

    pub closed spec fn packet_receiver(self) -> Receiver<P> {
        self.receive_packet_channel
    }

    pub closed spec fn command_sender(self) -> Sender<C> {
        self.send_command_channel
    }

    pub closed spec fn command_receiver(self) -> Receiver<C> {
        self.receive_command_channel
    }

    pub closed spec fn response_receiver(self) -> Receiver<R> {
        self.receive_response_channel
    }

    pub closed spec fn response_sender(self) -> Sender<R> {
        self.send_response_channel
    }

    /// The end on which packets are sent to the node.
    pub fn send_packet_channel(&self) -> (r: &Sender<P>)
        ensures
            *r == self.packet_sender(),
    {
        &self.send_packet_channel
    }

    /// The end on which the node receives its packets.
    pub fn receive_packet_channel(&self) -> (r: &Receiver<P>)
        ensures
            *r == self.packet_receiver(),
    {
        &self.receive_packet_channel
    }

    /// The end on which the controller sends the node commands.
    pub fn send_command_channel(&self) -> (r: &Sender<C>)
        ensures
            *r == self.command_sender(),
    {
        &self.send_command_channel
    }

    /// The end on which the node receives commands.
    pub fn receive_command_channel(&self) -> (r: &Receiver<C>)
        ensures
            *r == self.command_receiver(),
    {
        &self.receive_command_channel
    }

    /// The end on which the controller receives the node's responses.
    pub fn receive_response_channel(&self) -> (r: &Receiver<R>)
        ensures
            *r == self.response_receiver(),
    {
        &self.receive_response_channel
    }

    /// The end on which the node sends its responses.
    pub fn send_response_channel(&self) -> (r: &Sender<R>)
        ensures
            *r == self.response_sender(),
    {
        &self.send_response_channel
    }
}

impl<P, C, E> DroneChannels<P, C, E> {
    /// Fresh channels for a drone. That each sending end reaches the receiving
    /// end opened with it is left unsaid, as for the channels of a node.
    pub fn open() -> (r: Self) {
        let (send_command_channel, receive_command_channel) = open_channel::<C>();
        let (send_event_channel, receive_event_channel) = open_channel::<E>();
        let (send_packet_channel, receive_packet_channel) = open_channel::<P>();
        DroneChannels {
            send_command_channel,
            receive_command_channel,
            send_packet_channel,
            receive_packet_channel,
            receive_event_channel,
            send_event_channel,
        }
    }

    /// The end on which packets are sent to the drone.
    pub closed spec fn packet_sender(self) -> Sender<P> {
        self.send_packet_channel
    }

    pub closed spec fn packet_receiver(self) -> Receiver<P> {
        self.receive_packet_channel
    }

    pub closed spec fn command_sender(self) -> Sender<C> {
        self.send_command_channel
    }

    pub closed spec fn command_receiver(self) -> Receiver<C> {
        self.receive_command_channel
    }

    pub closed spec fn event_receiver(self) -> Receiver<E> {
        self.receive_event_channel
    }

    pub closed spec fn event_sender(self) -> Sender<E> {
        self.send_event_channel
    }

    /// The end on which the controller sends the drone commands.
    pub fn send_command_channel(&self) -> (r: &Sender<C>)
        ensures
            *r == self.command_sender(),
    {
        &self.send_command_channel
    }

    /// The end on which the drone receives commands.
    pub fn receive_command_channel(&self) -> (r: &Receiver<C>)
        ensures
            *r == self.command_receiver(),
    {
        &self.receive_command_channel
    }

    /// The end on which packets are sent to the drone.
    pub fn send_packet_channel(&self) -> (r: &Sender<P>)
        ensures
            *r == self.packet_sender(),
    {
        &self.send_packet_channel
    }

    /// The end on which the drone receives its packets.
    pub fn receive_packet_channel(&self) -> (r: &Receiver<P>)
        ensures
            *r == self.packet_receiver(),
    {
        &self.receive_packet_channel
    }

    /// The end on which the controller receives the drone's events.
    pub fn receive_event_channel(&self) -> (r: &Receiver<E>)
        ensures
            *r == self.event_receiver(),
    {
        &self.receive_event_channel
    }

    /// The end on which the drone sends its events.
    pub fn send_event_channel(&self) -> (r: &Sender<E>)
        ensures
            *r == self.event_sender(),
    {
        &self.send_event_channel
    }
}

/// The shutdown signal of a running simulation: the controller signals on its
/// sending end, and the nodes wait on its receiving end. The ends are private
/// and only `SimulationController::shutdown_signal` makes them, so they are
/// the ends of an unbounded channel, on which a send never waits.
pub struct ShutdownSignal {
    sender: Sender<()>,
    receiver: Receiver<()>,
}

impl ShutdownSignal {
    /// The end on which shutdown is signalled.
    pub closed spec fn signal_sender(self) -> Sender<()> {
        self.sender
    }

    /// The end on which the nodes wait for the signal.
    pub closed spec fn signal_receiver(self) -> Receiver<()> {
        self.receiver
    }
}

/// The ids of a list of configured nodes, as a set.
pub open spec fn ids_of(nodes: Seq<NodeView>) -> Set<u8> {
    Set::new(|id: u8| exists|i: int| 0 <= i < nodes.len() && nodes[i].id == id)
}

/// What the controller knows of a packet that a drone hands it: its session,
/// its route, and the kind of packet it is, as text.
pub struct PacketSummary {
    pub session_id: u64,
    pub hops: Vec<u8>,
    pub packet_type: String,
}

/// The event reported when a packet has been delivered by the controller.
pub struct PacketForwarded {
    pub session_id: u64,
    pub packet_type: String,
    pub source: u8,
    pub destination: u8,
}

/// Why the controller could not deliver a packet.
#[derive(Clone, Copy, Debug, PartialEq, Eq, Structural)]
pub enum ShortcutError {
    /// The last hop of the route is not a client or a server.
    DestinationNotANode,
    /// The destination's packet channel refused the packet.
    SendFailed,
}

/// Whether `event` reports the delivery of the packet described by `summary`:
/// its session and kind, from the first hop of its route to the last.
pub open spec fn reports_delivery(event: PacketForwarded, summary: PacketSummary) -> bool {
    &&& event.session_id == summary.session_id
    &&& event.packet_type@ == summary.packet_type@
    &&& event.source == summary.hops@[0]
    &&& event.destination == summary.hops@.last()
}

/// The outcome of handing a packet to its destination, once it is known whether
/// the destination's channel accepted it.
pub fn delivery_outcome(summary: &PacketSummary, delivered: bool) -> (r: Result<
    PacketForwarded,
    ShortcutError,
>)
    requires
        summary.hops.len() > 0,
    ensures
        delivered ==> (r matches Ok(event) && reports_delivery(event, *summary)),
        !delivered ==> r == Err::<PacketForwarded, ShortcutError>(ShortcutError::SendFailed),
{
    if delivered {
        Ok(
            PacketForwarded {
                session_id: summary.session_id,
                packet_type: summary.packet_type.clone(),
                source: summary.hops[0],
                destination: summary.hops[summary.hops.len() - 1],
            },
        )
    } else {
        Err(ShortcutError::SendFailed)
    }
}

/// Whether the neighbour id `id` has channels in either map.
pub open spec fn reachable<P, C, R, DC, DE>(
    nodes: Map<u8, NodeChannels<P, C, R>>,
    drones: Map<u8, DroneChannels<P, DC, DE>>,
) -> spec_fn(u8) -> bool {
    |id: u8| nodes.contains_key(id) || drones.contains_key(id)
}

/// Whether the neighbour id `id` has drone channels.
pub open spec fn reachable_drone<P, DC, DE>(drones: Map<u8, DroneChannels<P, DC, DE>>) -> spec_fn(
    u8,
) -> bool {
    |id: u8| drones.contains_key(id)
}

/// The ids of a list of neighbour senders.
pub open spec fn sender_ids<P>(senders: Seq<(u8, Sender<P>)>) -> Seq<u8> {
    senders.map_values(|p: (u8, Sender<P>)| p.0)
}

/// The state of a running simulation.
#[verifier::reject_recursive_types(P)]
#[verifier::reject_recursive_types(C)]
#[verifier::reject_recursive_types(R)]
#[verifier::reject_recursive_types(DC)]
#[verifier::reject_recursive_types(DE)]
pub struct SimulationController<P, C, R, DC, DE, T, H, L> {
    pub topology: T,
    pub nodes_channels: HashMap<u8, NodeChannels<P, C, R>>,
    pub drone_channels: HashMap<u8, DroneChannels<P, DC, DE>>,
    pub shutdown_channel: ShutdownSignal,
    pub handles: Vec<Option<H>>,
    pub logger: L,
}

impl<P, C, R, DC, DE, T, H, L> SimulationController<P, C, R, DC, DE, T, H, L> {
    /// A controller made of the given parts.
    pub fn new(
        nodes_channels: HashMap<u8, NodeChannels<P, C, R>>,
        drone_channels: HashMap<u8, DroneChannels<P, DC, DE>>,
        shutdown_channel: ShutdownSignal,
        handles: Vec<Option<H>>,
        topology: T,
        logger: L,
    ) -> (r: Self)
        ensures
            r.nodes_channels@ == nodes_channels@,
            r.drone_channels@ == drone_channels@,
            r.handles@ == handles@,
            r.shutdown_channel == shutdown_channel,
            r.topology == topology,
            r.logger == logger,
    {
        SimulationController {
            topology,
            nodes_channels,
            drone_channels,
            shutdown_channel,
            handles,
            logger,
        }
    }

    /// A fresh shutdown signal: a new channel on which the running nodes wait.
    /// That its two ends are connected is left unsaid, as for node channels.
    pub fn shutdown_signal() -> (r: ShutdownSignal) {
        let (sender, receiver) = open_channel::<()>();
        ShutdownSignal { sender, receiver }
    }

    /// A handle on the shutdown signal, for a node that is about to start: a
    /// copy of the controller's own receiving end of the signal.
    pub fn shutdown_receiver(&self) -> (r: Receiver<()>)
        ensures
            r == self.shutdown_channel.signal_receiver(),
    {
        clone_receiver(&self.shutdown_channel.receiver)
    }

    /// Signals shutdown to the running nodes; tells whether the signal was sent.
    /// Whether it is sent depends on whether a receiving end of the signal is
    /// still alive, which nothing here records, so the outcome is left unsaid.
    pub fn signal_shutdown(&self) -> (r: bool) {
        send_message(self.shutdown_sender(), ())
    }

    /// The end of the shutdown signal on which the controller signals.
    pub fn shutdown_sender(&self) -> (r: &Sender<()>)
        ensures
            *r == self.shutdown_channel.signal_sender(),
    {
        &self.shutdown_channel.sender
    }

    /// Forgets every node: no channels and no handles are left, and the
    /// topology is replaced by `topology`.
    pub fn reset(&mut self, topology: T)
        ensures
            final(self).nodes_channels@ == Map::<u8, NodeChannels<P, C, R>>::empty(),
            final(self).drone_channels@ == Map::<u8, DroneChannels<P, DC, DE>>::empty(),
            final(self).handles@ == Seq::<Option<H>>::empty(),
            final(self).topology == topology,
            final(self).logger == old(self).logger,
            final(self).shutdown_channel == old(self).shutdown_channel,
    {
        self.topology = topology;
        self.nodes_channels.clear();
        self.drone_channels.clear();
        self.handles.clear();
    }

    /// Opens the channels of every node of `config`: drone channels for each
    /// drone, node channels for each client and server. Ids that the
    /// configuration does not name keep the channels they had. What is
    /// recorded in the topology meanwhile (each drone, its links and its type)
    /// is not done here: it is the drone part of `layout::network_layout`,
    /// whose contract states it.
    pub fn init_channels(
        config: &Config,
        node_channels: &mut HashMap<u8, NodeChannels<P, C, R>>,
        drone_channels: &mut HashMap<u8, DroneChannels<P, DC, DE>>,
    )
        ensures
            final(drone_channels)@.dom() == old(drone_channels)@.dom() + ids_of(config@.drones),
            final(node_channels)@.dom() == old(node_channels)@.dom() + ids_of(config@.clients)
                + ids_of(config@.servers),
            forall|id: u8|
                !ids_of(config@.drones).contains(id) && old(drone_channels)@.contains_key(id)
                    ==> final(drone_channels)@[id] == old(drone_channels)@[id],
            forall|id: u8|
                !ids_of(config@.clients).contains(id) && !ids_of(config@.servers).contains(id)
                    && old(node_channels)@.contains_key(id) ==> final(node_channels)@[id] == old(
                    node_channels,
                )@[id],
    {
        let ghost drones = nodes_view(config.drone@);
        let ghost start = drone_channels@;
        let mut i: usize = 0;
        while i < config.drone.len()
            invariant
                i <= config.drone.len(),
                drones == nodes_view(config.drone@),
                drone_channels@.dom() == start.dom() + ids_of(drones.take(i as int)),
                forall|id: u8|
                    !ids_of(drones.take(i as int)).contains(id) && start.contains_key(id)
                        ==> drone_channels@[id] == start[id],
            decreases config.drone.len() - i,
        {
            drone_channels.insert(config.drone[i].id, DroneChannels::open());
            proof {
                lemma_ids_of_take_step(drones, i as int);
            }
            i += 1;
        }
        assert(drones.take(config.drone.len() as int) =~= drones);

        let ghost clients = nodes_view(config.client@);
        let ghost servers = nodes_view(config.server@);
        let ghost nstart = node_channels@;
        let mut i: usize = 0;
        while i < config.client.len()
            invariant
                i <= config.client.len(),
                clients == nodes_view(config.client@),
                node_channels@.dom() == nstart.dom() + ids_of(clients.take(i as int)),
                forall|id: u8|
                    !ids_of(clients.take(i as int)).contains(id) && nstart.contains_key(id)
                        ==> node_channels@[id] == nstart[id],
            decreases config.client.len() - i,
        {
            node_channels.insert(config.client[i].id, NodeChannels::open());
            proof {
                lemma_ids_of_take_step(clients, i as int);
            }
            i += 1;
        }
        assert(clients.take(config.client.len() as int) =~= clients);
        let ghost mid = node_channels@;
        let mut i: usize = 0;
        while i < config.server.len()
            invariant
                i <= config.server.len(),
                servers == nodes_view(config.server@),
                node_channels@.dom() == mid.dom() + ids_of(servers.take(i as int)),
                forall|id: u8|
                    !ids_of(servers.take(i as int)).contains(id) && mid.contains_key(id)
                        ==> node_channels@[id] == mid[id],
            decreases config.server.len() - i,
        {
            node_channels.insert(config.server[i].id, NodeChannels::open());
            proof {
                lemma_ids_of_take_step(servers, i as int);
            }
            i += 1;
        }
        assert(servers.take(config.server.len() as int) =~= servers);
    }

    /// The packet senders of the neighbours `connected` of a drone, in the order
    /// of `connected`: each neighbour that has channels, taken from the node
    /// channels where it has them, else from the drone channels.
    pub fn drone_neighbors(
        drone_channels: &HashMap<u8, DroneChannels<P, DC, DE>>,
        node_channels: &HashMap<u8, NodeChannels<P, C, R>>,
        connected: &Vec<u8>,
    ) -> (r: Vec<(u8, Sender<P>)>)
        ensures
            sender_ids(r@) == connected@.filter(reachable(node_channels@, drone_channels@)),
            forall|k: int|
                0 <= k < r@.len() ==> #[trigger] r@[k].1 == (if node_channels@.contains_key(
                    r@[k].0,
                ) {
                    node_channels@[r@[k].0].packet_sender()
                } else {
                    drone_channels@[r@[k].0].packet_sender()
                }),
    {
        let ghost pred = reachable(node_channels@, drone_channels@);
        let mut r: Vec<(u8, Sender<P>)> = Vec::new();
        let mut i: usize = 0;
        while i < connected.len()
            invariant
                i <= connected.len(),
                pred == reachable(node_channels@, drone_channels@),
                sender_ids(r@) == connected@.take(i as int).filter(pred),
                forall|k: int|
                    0 <= k < r@.len() ==> #[trigger] r@[k].1 == (if node_channels@.contains_key(
                        r@[k].0,
                    ) {
                        node_channels@[r@[k].0].packet_sender()
                    } else {
                        drone_channels@[r@[k].0].packet_sender()
                    }),
            decreases connected.len() - i,
        {
            let id = connected[i];
            let ghost before = r@;
            match node_channels.get(&id) {
                Some(channels) => {
                    r.push((id, clone_sender(channels.send_packet_channel())));
                },
                None => match drone_channels.get(&id) {
                    Some(channels) => {
                        r.push((id, clone_sender(channels.send_packet_channel())));
                    },
                    None => {},
                },
            }
            proof {
                reveal(Seq::filter);
                let prefix = connected@.take(i + 1);
                assert(prefix.drop_last() =~= connected@.take(i as int));
                assert(prefix.last() == id);
                assert(prefix.filter(pred) == (if pred(id) {
                    connected@.take(i as int).filter(pred).push(id)
                } else {
                    connected@.take(i as int).filter(pred)
                }));
                if pred(id) {
                    assert(sender_ids(r@) =~= sender_ids(before).push(id));
                } else {
                    assert(r@ == before);
                }
            }
            i += 1;
        }
        assert(connected@.take(connected.len() as int) =~= connected@);
        r
    }

    /// The packet senders of the drones among `connected`, the neighbours of a
    /// client or a server, in the order of `connected`.
    pub fn drone_links(drone_channels: &HashMap<u8, DroneChannels<P, DC, DE>>, connected: &Vec<u8>) -> (r:
        Vec<(u8, Sender<P>)>)
        ensures
            sender_ids(r@) == connected@.filter(reachable_drone(drone_channels@)),
            forall|k: int|
                0 <= k < r@.len() ==> #[trigger] r@[k].1 == drone_channels@[r@[k].0].packet_sender(),
    {
        let ghost pred = reachable_drone(drone_channels@);
        let mut r: Vec<(u8, Sender<P>)> = Vec::new();
        let mut i: usize = 0;
        while i < connected.len()
            invariant
                i <= connected.len(),
                pred == reachable_drone(drone_channels@),
                sender_ids(r@) == connected@.take(i as int).filter(pred),
                forall|k: int|
                    0 <= k < r@.len() ==> #[trigger] r@[k].1 == drone_channels@[r@[k].0].packet_sender(),
            decreases connected.len() - i,
        {
            let id = connected[i];
            let ghost before = r@;
            match drone_channels.get(&id) {
                Some(channels) => {
                    r.push((id, clone_sender(channels.send_packet_channel())));
                },
                None => {},
            }
            proof {
                reveal(Seq::filter);
                let prefix = connected@.take(i + 1);
                assert(prefix.drop_last() =~= connected@.take(i as int));
                assert(prefix.last() == id);
                assert(prefix.filter(pred) == (if pred(id) {
                    connected@.take(i as int).filter(pred).push(id)
                } else {
                    connected@.take(i as int).filter(pred)
                }));
                if pred(id) {
                    assert(sender_ids(r@) =~= sender_ids(before).push(id));
                } else {
                    assert(r@ == before);
                }
            }
            i += 1;
        }
        assert(connected@.take(connected.len() as int) =~= connected@);
        r
    }

    /// Delivers a packet that a drone handed to the controller straight to its
    /// destination, the last hop of its route, on the sender that
    /// `destination_sender` picks, and reports the delivery.
    /// A destination that is not a client or a server is refused; so is a
    /// packet that the destination's channel does not accept.
    pub fn handle_controller_shortcut(&self, packet: P, summary: &PacketSummary) -> (r: Result<
        PacketForwarded,
        ShortcutError,
    >)
        requires
            summary.hops.len() > 0,
        ensures
            !self.nodes_channels@.contains_key(summary.hops@.last()) ==> r == Err::<
                PacketForwarded,
                ShortcutError,
            >(ShortcutError::DestinationNotANode),
            self.nodes_channels@.contains_key(summary.hops@.last()) ==> (r matches Ok(event)
                && reports_delivery(event, *summary)) || r == Err::<
                PacketForwarded,
                ShortcutError,
            >(ShortcutError::SendFailed),
    {
        match self.destination_sender(summary) {
            Some(sender) => {
                let delivered = send_message(sender, packet);
                delivery_outcome(summary, delivered)
            },
            None => Err(ShortcutError::DestinationNotANode),
        }
    }

    /// The packet sender of the destination of a route, its last hop, when the
    /// destination is a client or a server: the one on which the controller
    /// delivers a packet that a drone hands it.
    pub fn destination_sender(&self, summary: &PacketSummary) -> (r: Option<&Sender<P>>)
        requires
            summary.hops.len() > 0,
        ensures
            r == (if self.nodes_channels@.contains_key(summary.hops@.last()) {
                Some(&self.nodes_channels@[summary.hops@.last()].packet_sender())
            } else {
                None
            }),
    {
        let destination = summary.hops[summary.hops.len() - 1];
        match self.nodes_channels.get(&destination) {
            Some(channels) => Some(channels.send_packet_channel()),
            None => None,
        }
    }
}

/// Building and rebuilding from the same configuration open channels for the
/// same ids: once the maps are empty, as `reset` leaves them, opening the
/// channels of a configuration gives channels for exactly the drones, and for
/// exactly the clients and servers, that the configuration names.
pub proof fn lemma_channels_from_empty<P, C, R, DC, DE>(
    config: Config,
    nodes_before: Map<u8, NodeChannels<P, C, R>>,
    drones_before: Map<u8, DroneChannels<P, DC, DE>>,
    nodes_after: Map<u8, NodeChannels<P, C, R>>,
    drones_after: Map<u8, DroneChannels<P, DC, DE>>,
)
    requires
        nodes_before == Map::<u8, NodeChannels<P, C, R>>::empty(),
        drones_before == Map::<u8, DroneChannels<P, DC, DE>>::empty(),
        drones_after.dom() == drones_before.dom() + ids_of(config@.drones),
        nodes_after.dom() == nodes_before.dom() + ids_of(config@.clients) + ids_of(config@.servers),
    ensures
        drones_after.dom() == ids_of(config@.drones),
        nodes_after.dom() == ids_of(config@.clients) + ids_of(config@.servers),
{
    assert(drones_after.dom() =~= ids_of(config@.drones));
    assert(nodes_after.dom() =~= ids_of(config@.clients) + ids_of(config@.servers));
}

/// What `reset` leaves of a controller, given the topology it is handed: no
/// channels and no handles, that topology, and the same logger and shutdown
/// signal as before.
pub open spec fn resets_to<P, C, R, DC, DE, T, H, L>(
    before: SimulationController<P, C, R, DC, DE, T, H, L>,
    after: SimulationController<P, C, R, DC, DE, T, H, L>,
    topology: T,
) -> bool {
    &&& after.nodes_channels@ == Map::<u8, NodeChannels<P, C, R>>::empty()
    &&& after.drone_channels@ == Map::<u8, DroneChannels<P, DC, DE>>::empty()
    &&& after.handles@ == Seq::<Option<H>>::empty()
    &&& after.topology == topology
    &&& after.logger == before.logger
    &&& after.shutdown_channel == before.shutdown_channel
}

/// Resetting twice leaves what resetting once leaves: the second reset finds
/// no channel and no handle, so a second destruction joins no thread and
/// changes nothing more.
pub proof fn lemma_reset_twice_is_reset_once<P, C, R, DC, DE, T, H, L>(
    start: SimulationController<P, C, R, DC, DE, T, H, L>,
    once: SimulationController<P, C, R, DC, DE, T, H, L>,
    twice: SimulationController<P, C, R, DC, DE, T, H, L>,
    topology: T,
)
    requires
        resets_to(start, once, topology),
        resets_to(once, twice, topology),
    ensures
        once.handles@.len() == 0,
        twice.nodes_channels@ == once.nodes_channels@,
        twice.drone_channels@ == once.drone_channels@,
        twice.handles@ == once.handles@,
        twice.topology == once.topology,
        twice.logger == once.logger,
        twice.shutdown_channel == once.shutdown_channel,
{
}

/// Rebuilding from the same configuration gives what building gives: with the
/// maps emptied first, as `reset` leaves them, the channels are opened for the
/// same ids, and the topology receives the same changes.
pub proof fn lemma_rebuild_matches_build<P, C, R, DC, DE>(
    built_from: Config,
    rebuilt_from: Config,
    kinds: Seq<DroneKind>,
    built_nodes: Map<u8, NodeChannels<P, C, R>>,
    built_drones: Map<u8, DroneChannels<P, DC, DE>>,
    rebuilt_nodes: Map<u8, NodeChannels<P, C, R>>,
    rebuilt_drones: Map<u8, DroneChannels<P, DC, DE>>,
)
    requires
        built_from@ == rebuilt_from@,
        built_drones.dom() == Map::<u8, DroneChannels<P, DC, DE>>::empty().dom() + ids_of(
            built_from@.drones,
        ),
        built_nodes.dom() == Map::<u8, NodeChannels<P, C, R>>::empty().dom() + ids_of(
            built_from@.clients,
        ) + ids_of(built_from@.servers),
        rebuilt_drones.dom() == Map::<u8, DroneChannels<P, DC, DE>>::empty().dom() + ids_of(
            rebuilt_from@.drones,
        ),
        rebuilt_nodes.dom() == Map::<u8, NodeChannels<P, C, R>>::empty().dom() + ids_of(
            rebuilt_from@.clients,
        ) + ids_of(rebuilt_from@.servers),
    ensures
        rebuilt_drones.dom() == built_drones.dom(),
        rebuilt_nodes.dom() == built_nodes.dom(),
        layout(rebuilt_from@, kinds) == layout(built_from@, kinds),
{
}

proof fn lemma_ids_of_take_step(nodes: Seq<NodeView>, i: int)
    requires
        0 <= i < nodes.len(),
    ensures
        ids_of(nodes.take(i + 1)) == ids_of(nodes.take(i)).insert(nodes[i].id),
{
    let longer = nodes.take(i + 1);
    let shorter = nodes.take(i);
    let a = ids_of(longer);
    let b = ids_of(shorter).insert(nodes[i].id);
    assert forall|id: u8| a.contains(id) <==> b.contains(id) by {
        if a.contains(id) {
            let k = choose|k: int| 0 <= k < longer.len() && #[trigger] longer[k].id == id;
            if k < i {
                assert(shorter[k].id == id);
            }
        }
        if ids_of(shorter).contains(id) {
            let k = choose|k: int| 0 <= k < shorter.len() && #[trigger] shorter[k].id == id;
            assert(longer[k].id == id);
        }
        if id == nodes[i].id {
            assert(longer[i].id == id);
        }
    }
    assert(a =~= b);
}

} // verus!
