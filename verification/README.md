# rustafarian_controller

The simulation controller of a network of drones, clients and servers, with
its decisions verified by Verus.

- `src/config.rs`: the configuration (drones, clients, servers and their
  links) and the rules that a configuration must meet; `validate_config`
  reports the first rule that a configuration breaks, and the laws state
  that validation accepts exactly the usable networks, and that in a usable
  network whose ids are all distinct every link is mutual.
- `src/nodes.rs`: which drone implementation each drone runs (handed out in
  turn), which client or server each id stands for, and their labels and
  node types.
- `src/layout.rs`: the changes made to the recorded topology while a network
  is built.
- `src/controller.rs`: the controller's state (the channels of every node and
  the shutdown signal, all ends of unbounded channels that only the library
  opens; the handles of the running nodes; the topology), the
  channels a configuration needs, the neighbours each node is handed, and
  the delivery of packets that drones pass to the controller.
- `src/runnable.rs`: nodes that run in a thread, and when such a thread stops.
- `app/`: reading the configuration file, starting the nodes in threads,
  and stopping them.
