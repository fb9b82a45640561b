use rustafarian_controller::config::{
    validate_config, ClientConfig, Config, ConfigError, DroneConfig, ServerConfig,
};

fn drone(id: u8, links: &[u8]) -> DroneConfig {
    DroneConfig { id, connected_node_ids: links.to_vec(), pdr_bits: 0.1f32.to_bits() }
}

fn client(id: u8, links: &[u8]) -> ClientConfig {
    ClientConfig { id, connected_drone_ids: links.to_vec() }
}

fn server(id: u8, links: &[u8]) -> ServerConfig {
    ServerConfig { id, connected_drone_ids: links.to_vec() }
}

/// Five drones, one browser client and one text server.
fn small_network() -> Config {
    Config {
        drone: vec![
            drone(1, &[7, 3]),
            drone(2, &[7, 3]),
            drone(3, &[1, 2, 4, 5]),
            drone(4, &[3, 11]),
            drone(5, &[3, 11]),
        ],
        client: vec![client(7, &[1, 2])],
        server: vec![server(11, &[4, 5])],
    }
}

/// Twenty drones in a ring, each also linked to the drone two places ahead
/// and behind, with one client and one server.
fn ring_network() -> Config {
    let mut drones = Vec::new();
    for i in 0u8..20 {
        let id = i + 1;
        let next = (i + 1) % 20 + 1;
        let prev = (i + 19) % 20 + 1;
        let mut links = vec![next, prev];
        if id == 1 || id == 2 {
            links.push(30);
        }
        if id == 10 || id == 11 {
            links.push(40);
        }
        drones.push(drone(id, &links));
    }
    Config {
        drone: drones,
        client: vec![client(30, &[1, 2])],
        server: vec![server(40, &[10, 11])],
    }
}

#[test]
fn validate_accepts_small_network() {
    assert_eq!(validate_config(&small_network()), Ok(()));
}

#[test]
fn validate_accepts_large_network() {
    assert_eq!(validate_config(&ring_network()), Ok(()));
}

#[test]
fn validate_accepts_empty_config() {
    let config = Config { drone: vec![], client: vec![], server: vec![] };
    assert_eq!(validate_config(&config), Ok(()));
}

#[test]
fn validate_rejects_isolated_drone() {
    let mut config = small_network();
    config.drone.push(drone(6, &[]));
    assert_eq!(
        validate_config(&config),
        Err(ConfigError::DroneWithoutConnections { drone: 6 })
    );
}

#[test]
fn validate_rejects_drone_linked_to_itself() {
    let mut config = small_network();
    config.drone[2] = drone(3, &[1, 2, 3, 4, 5]);
    assert_eq!(
        validate_config(&config),
        Err(ConfigError::DroneConnectedToItself { drone: 3 })
    );
}

#[test]
fn validate_rejects_repeated_neighbour() {
    let mut config = small_network();
    config.drone[0] = drone(1, &[7, 3, 7]);
    assert_eq!(
        validate_config(&config),
        Err(ConfigError::DroneDuplicateConnections { drone: 1 })
    );
}

#[test]
fn validate_rejects_client_without_drones() {
    let mut config = small_network();
    config.client[0] = client(7, &[]);
    assert_eq!(
        validate_config(&config),
        Err(ConfigError::ClientConnectionCount { client: 7 })
    );
}

#[test]
fn validate_rejects_client_with_three_drones() {
    let mut config = small_network();
    config.client[0] = client(7, &[1, 2, 3]);
    assert_eq!(
        validate_config(&config),
        Err(ConfigError::ClientConnectionCount { client: 7 })
    );
}

#[test]
fn validate_rejects_server_with_one_drone() {
    let mut config = small_network();
    config.server[0] = server(11, &[4]);
    assert_eq!(
        validate_config(&config),
        Err(ConfigError::ServerConnectionCount { server: 11 })
    );
}

#[test]
fn validate_rejects_client_not_listing_drone() {
    let mut config = small_network();
    config.client[0] = client(7, &[1]);
    // Drone 2 lists client 7, which does not list drone 2.
    assert_eq!(
        validate_config(&config),
        Err(ConfigError::ClientNotConnectedToDrone { client: 7, drone: 2 })
    );
}

#[test]
fn validate_rejects_server_not_listing_drone() {
    let mut config = small_network();
    config.drone.push(drone(6, &[11, 3]));
    config.drone[2] = drone(3, &[1, 2, 4, 5, 6]);
    assert_eq!(
        validate_config(&config),
        Err(ConfigError::ServerNotConnectedToDrone { server: 11, drone: 6 })
    );
}

#[test]
fn validate_rejects_drone_not_listing_drone() {
    let mut config = small_network();
    config.drone[3] = drone(4, &[11]);
    // Drone 3 lists drone 4, which does not list drone 3.
    assert_eq!(
        validate_config(&config),
        Err(ConfigError::DroneNotConnectedToDrone { drone: 4, neighbor: 3 })
    );
}

#[test]
fn validate_rejects_drone_linked_to_unknown_id() {
    let mut config = small_network();
    config.drone[0] = drone(1, &[7, 3, 99]);
    assert_eq!(
        validate_config(&config),
        Err(ConfigError::DroneUnknownNeighbor { drone: 1, node: 99 })
    );
}

#[test]
fn validate_rejects_drone_not_listing_client() {
    let mut config = small_network();
    config.drone[1] = drone(2, &[3]);
    // Client 7 lists drone 2, which does not list client 7.
    assert_eq!(
        validate_config(&config),
        Err(ConfigError::DroneNotConnectedToClient { drone: 2, client: 7 })
    );
}

#[test]
fn validate_rejects_client_linked_to_server() {
    let mut config = small_network();
    config.client[0] = client(7, &[1, 11]);
    config.drone[1] = drone(2, &[3]);
    assert_eq!(
        validate_config(&config),
        Err(ConfigError::ClientConnectedToServer { client: 7, server: 11 })
    );
}

#[test]
fn validate_rejects_client_linked_to_client() {
    let mut config = small_network();
    config.client.push(client(8, &[7]));
    assert_eq!(
        validate_config(&config),
        Err(ConfigError::ClientConnectedToClient { client: 8, other: 7 })
    );
}

#[test]
fn validate_rejects_client_linked_to_unknown_id() {
    let mut config = small_network();
    config.client[0] = client(7, &[1, 50]);
    config.drone[1] = drone(2, &[3]);
    assert_eq!(
        validate_config(&config),
        Err(ConfigError::ClientUnknownDrone { client: 7, node: 50 })
    );
}

#[test]
fn validate_rejects_drone_not_listing_server() {
    let mut config = small_network();
    config.drone[4] = drone(5, &[3]);
    // Server 11 lists drone 5, which does not list server 11.
    assert_eq!(
        validate_config(&config),
        Err(ConfigError::DroneNotConnectedToServer { drone: 5, server: 11 })
    );
}

#[test]
fn validate_rejects_server_linked_to_client() {
    let mut config = small_network();
    config.server[0] = server(11, &[4, 5, 7]);
    assert_eq!(
        validate_config(&config),
        Err(ConfigError::ServerConnectedToClient { server: 11, client: 7 })
    );
}

#[test]
fn validate_rejects_server_linked_to_server() {
    let mut config = small_network();
    config.server.push(server(12, &[11, 4]));
    assert_eq!(
        validate_config(&config),
        Err(ConfigError::ServerConnectedToServer { server: 12, other: 11 })
    );
}

#[test]
fn validate_rejects_server_linked_to_unknown_id() {
    let mut config = small_network();
    config.server[0] = server(11, &[4, 5, 60]);
    assert_eq!(
        validate_config(&config),
        Err(ConfigError::ServerUnknownDrone { server: 11, node: 60 })
    );
}

#[test]
fn validate_reports_local_errors_before_link_errors() {
    let mut config = small_network();
    // A broken link of drone 1 and a server with too few drones: the server's
    // own rule is checked first.
    config.drone[0] = drone(1, &[7, 3, 99]);
    config.server.push(server(12, &[4]));
    assert_eq!(
        validate_config(&config),
        Err(ConfigError::ServerConnectionCount { server: 12 })
    );
}

#[test]
fn accepted_networks_have_mutual_links() {
    for config in [small_network(), ring_network()] {
        assert_eq!(validate_config(&config), Ok(()));
        let mut all: Vec<(u8, Vec<u8>)> = Vec::new();
        all.extend(config.drone.iter().map(|d| (d.id, d.connected_node_ids.clone())));
        all.extend(config.client.iter().map(|c| (c.id, c.connected_drone_ids.clone())));
        all.extend(config.server.iter().map(|s| (s.id, s.connected_drone_ids.clone())));
        for (id, links) in &all {
            for to in links {
                let (_, back) = all.iter().find(|(other, _)| other == to).unwrap();
                assert!(back.contains(id));
            }
        }
    }
}
