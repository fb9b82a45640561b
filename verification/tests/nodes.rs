use rustafarian_controller::nodes::{
    active_drone_kinds, client_kind, drone_kind_at, server_kind, ClientKind, DroneKind, NodeLabel,
    NodeType, ServerKind,
};

#[test]
fn drop_client_test() {}

#[test]
fn test_drone_factories_cycle() {
    let kinds = vec![
        DroneKind::CppEnjoyers,
        DroneKind::GetDroned,
        DroneKind::Rusteze,
        DroneKind::DrOne,
        DroneKind::RustDoIt,
        DroneKind::RustBusters,
        DroneKind::Rusty,
        DroneKind::LockheedRustin,
        DroneKind::DRONE,
    ];
    let picked: Vec<DroneKind> = (0..12).map(|i| drone_kind_at(&kinds, i)).collect();
    assert_eq!(picked[0], DroneKind::CppEnjoyers);
    assert_eq!(picked[1], DroneKind::GetDroned);
    assert_eq!(picked[2], DroneKind::Rusteze);
    assert_eq!(picked[3], DroneKind::DrOne);
    assert_eq!(picked[4], DroneKind::RustDoIt);
    assert_eq!(picked[5], DroneKind::RustBusters);
    assert_eq!(picked[6], DroneKind::Rusty);
    assert_eq!(picked[7], DroneKind::LockheedRustin);
    assert_eq!(picked[8], DroneKind::DRONE);
    assert_eq!(picked[9], DroneKind::CppEnjoyers);
    assert_eq!(picked[10], DroneKind::GetDroned);
    assert_eq!(picked[11], DroneKind::Rusteze);
}

#[test]
fn active_kinds_are_handed_out_in_turn() {
    let kinds = active_drone_kinds();
    assert_eq!(kinds.len(), 8);
    assert_eq!(kinds[0], DroneKind::CppEnjoyers);
    assert_eq!(kinds[7], DroneKind::DRONE);
    assert!(!kinds.contains(&DroneKind::LockheedRustin));
    for i in 0..8 {
        assert_eq!(drone_kind_at(&kinds, i), drone_kind_at(&kinds, i + 8));
        assert_eq!(drone_kind_at(&kinds, i), kinds[i]);
    }
}

#[test]
fn drone_names() {
    assert_eq!(DroneKind::CppEnjoyers.name(), "C++ Enjoyers drone");
    assert_eq!(DroneKind::GetDroned.name(), "Get Droned drone");
    assert_eq!(DroneKind::Rusteze.name(), "Rusteeze drone");
    assert_eq!(DroneKind::DrOne.name(), "Dr One drone");
    assert_eq!(DroneKind::RustDoIt.name(), "Rust Do It drone");
    assert_eq!(DroneKind::RustBusters.name(), "Rust Busters drone");
    assert_eq!(DroneKind::Rusty.name(), "Rusty drone");
    assert_eq!(DroneKind::DRONE.name(), "D.R.O.N.E. drone");
    assert_eq!(DroneKind::LockheedRustin.name(), "Lockheed Rustin drone");
}

#[test]
fn even_clients_chat_odd_clients_browse() {
    assert_eq!(client_kind(0), ClientKind::Chat);
    assert_eq!(client_kind(4), ClientKind::Chat);
    assert_eq!(client_kind(7), ClientKind::Browser);
    assert_eq!(client_kind(255), ClientKind::Browser);
    assert_eq!(client_kind(4).node_type().as_str(), "chat_client");
    assert_eq!(client_kind(7).node_type().as_str(), "browser_client");
    assert_eq!(client_kind(4).label().as_str(), "Chat client");
    assert_eq!(client_kind(7).label().as_str(), "Browser client");
}

#[test]
fn servers_by_remainder_of_three() {
    assert_eq!(server_kind(9), ServerKind::Chat);
    assert_eq!(server_kind(10), ServerKind::Media);
    assert_eq!(server_kind(11), ServerKind::Text);
    assert_eq!(server_kind(0), ServerKind::Chat);
    assert_eq!(server_kind(9).node_type().as_str(), "Chat");
    assert_eq!(server_kind(10).node_type().as_str(), "Media");
    assert_eq!(server_kind(11).node_type().as_str(), "Text");
    assert_eq!(server_kind(9).label().as_str(), "Chat server");
    assert_eq!(server_kind(10).label().as_str(), "Media server");
    assert_eq!(server_kind(11).label().as_str(), "Text server");
}

#[test]
fn labels_and_types_text() {
    assert_eq!(NodeType::Drone.as_str(), "drone");
    assert_eq!(NodeLabel::Drone(DroneKind::Rusty).as_str(), "Rusty drone");
}
