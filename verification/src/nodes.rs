//! What each configured node becomes: which drone implementation a drone runs,
//! which client or server a client or server id stands for, and the labels and
//! node types under which the nodes are shown in the topology.
use vstd::prelude::*;

verus! {

/// The drone implementations that the controller can start.
#[derive(Clone, Copy, Debug, PartialEq, Eq, Structural)]
pub enum DroneKind {
    CppEnjoyers,
    GetDroned,
    Rusteze,
    DrOne,
    RustDoIt,
    RustBusters,
    Rusty,
    DRONE,
    LockheedRustin,
}

/// The name under which a drone implementation is shown.
pub open spec fn drone_name(kind: DroneKind) -> Seq<char> {
    match kind {
        DroneKind::CppEnjoyers => "C++ Enjoyers drone"@,
        DroneKind::GetDroned => "Get Droned drone"@,
        DroneKind::Rusteze => "Rusteeze drone"@,
        DroneKind::DrOne => "Dr One drone"@,
        DroneKind::RustDoIt => "Rust Do It drone"@,
        DroneKind::RustBusters => "Rust Busters drone"@,
        DroneKind::Rusty => "Rusty drone"@,
        DroneKind::DRONE => "D.R.O.N.E. drone"@,
        DroneKind::LockheedRustin => "Lockheed Rustin drone"@,
    }
}

impl DroneKind {
    /// The name under which this drone implementation is shown.
    pub fn name(&self) -> (r: &'static str)
        ensures
            r@ == drone_name(*self),
    {
        match self {
            DroneKind::CppEnjoyers => "C++ Enjoyers drone",
            DroneKind::GetDroned => "Get Droned drone",
            DroneKind::Rusteze => "Rusteeze drone",
            DroneKind::DrOne => "Dr One drone",
            DroneKind::RustDoIt => "Rust Do It drone",
            DroneKind::RustBusters => "Rust Busters drone",
            DroneKind::Rusty => "Rusty drone",
            DroneKind::DRONE => "D.R.O.N.E. drone",
            DroneKind::LockheedRustin => "Lockheed Rustin drone",
        }
    }
}

/// The drone implementations that are handed out, in the order in which they
/// are handed out.
pub open spec fn active_kinds() -> Seq<DroneKind> {
    seq![
        DroneKind::CppEnjoyers,
        DroneKind::GetDroned,
        DroneKind::Rusteze,
        DroneKind::DrOne,
        DroneKind::RustDoIt,
        DroneKind::RustBusters,
        DroneKind::Rusty,
        DroneKind::DRONE,
    ]
}

/// The drone implementations that are handed out, in order.
pub fn active_drone_kinds() -> (r: Vec<DroneKind>)
    ensures
        r@ == active_kinds(),
        r@ == seq![
            DroneKind::CppEnjoyers,
            DroneKind::GetDroned,
            DroneKind::Rusteze,
            DroneKind::DrOne,
            DroneKind::RustDoIt,
            DroneKind::RustBusters,
            DroneKind::Rusty,
            DroneKind::DRONE,
        ],
        r@.no_duplicates(),
        forall|k: DroneKind| k != DroneKind::LockheedRustin <==> #[trigger] r@.contains(k),
{
    let r = vec![
        DroneKind::CppEnjoyers,
        DroneKind::GetDroned,
        DroneKind::Rusteze,
        DroneKind::DrOne,
        DroneKind::RustDoIt,
        DroneKind::RustBusters,
        DroneKind::Rusty,
        DroneKind::DRONE,
    ];
    assert(r@ =~= active_kinds());
    proof {
        lemma_active_kinds_distinct_and_complete();
    }
    r
}

/// The implementation that the drone at position `index` of the configuration
/// runs: the implementations are handed out in turn, starting again from the
/// first once all have been used.
pub fn drone_kind_at(kinds: &Vec<DroneKind>, index: usize) -> (r: DroneKind)
    requires
        kinds.len() > 0,
    ensures
        r == kinds@[(index % kinds.len()) as int],
{
    kinds[index % kinds.len()]
}

/// Handing out implementations in turn repeats with the length of the list,
/// and the first round hands them out in the order of the list.
pub proof fn lemma_drone_kinds_cycle(kinds: Seq<DroneKind>, index: nat)
    requires
        kinds.len() > 0,
    ensures
        kinds[((index + kinds.len()) % kinds.len()) as int] == kinds[(index % kinds.len()) as int],
        index < kinds.len() ==> kinds[(index % kinds.len()) as int] == kinds[index as int],
{
    vstd::arithmetic::div_mod::lemma_mod_add_multiples_vanish(index as int, kinds.len() as int);
    if index < kinds.len() {
        vstd::arithmetic::div_mod::lemma_small_mod(index, kinds.len());
    }
}

/// The two clients that the controller can start.
#[derive(Clone, Copy, Debug, PartialEq, Eq, Structural)]
pub enum ClientKind {
    Chat,
    Browser,
}

/// The three servers that the controller can start.
#[derive(Clone, Copy, Debug, PartialEq, Eq, Structural)]
pub enum ServerKind {
    Chat,
    Media,
    Text,
}

/// A client with an even id runs the chat client, any other the browser client.
pub open spec fn client_kind_of(id: u8) -> ClientKind {
    if id % 2 == 0 {
        ClientKind::Chat
    } else {
        ClientKind::Browser
    }
}

/// A server runs the chat server, the media server or the text server as its
/// id leaves the remainder 0, 1 or 2 when divided by 3.
pub open spec fn server_kind_of(id: u8) -> ServerKind {
    if id % 3 == 0 {
        ServerKind::Chat
    } else if id % 3 == 1 {
        ServerKind::Media
    } else {
        ServerKind::Text
    }
}

/// The client that the node with this id runs.
pub fn client_kind(id: u8) -> (r: ClientKind)
    ensures
        r == client_kind_of(id),
        r == ClientKind::Chat <==> id % 2 == 0,
        r == ClientKind::Browser <==> id % 2 == 1,
{
    if id % 2 == 0 {
        ClientKind::Chat
    } else {
        ClientKind::Browser
    }
}

/// The server that the node with this id runs.
pub fn server_kind(id: u8) -> (r: ServerKind)
    ensures
        r == server_kind_of(id),
        r == ServerKind::Chat <==> id % 3 == 0,
        r == ServerKind::Media <==> id % 3 == 1,
        r == ServerKind::Text <==> id % 3 == 2,
{
    if id % 3 == 0 {
        ServerKind::Chat
    } else if id % 3 == 1 {
        ServerKind::Media
    } else {
        ServerKind::Text
    }
}

/// The node type under which a node is recorded in the topology.
#[derive(Clone, Copy, Debug, PartialEq, Eq, Structural)]
pub enum NodeType {
    Drone,
    ChatClient,
    BrowserClient,
    ChatServer,
    MediaServer,
    TextServer,
}

pub open spec fn node_type_name(t: NodeType) -> Seq<char> {
    match t {
        NodeType::Drone => "drone"@,
        NodeType::ChatClient => "chat_client"@,
        NodeType::BrowserClient => "browser_client"@,
        NodeType::ChatServer => "Chat"@,
        NodeType::MediaServer => "Media"@,
        NodeType::TextServer => "Text"@,
    }
}

impl NodeType {
    /// The text under which this node type is recorded.
    pub fn as_str(&self) -> (r: &'static str)
        ensures
            r@ == node_type_name(*self),
    {
        match self {
            NodeType::Drone => "drone",
            NodeType::ChatClient => "chat_client",
            NodeType::BrowserClient => "browser_client",
            NodeType::ChatServer => "Chat",
            NodeType::MediaServer => "Media",
            NodeType::TextServer => "Text",
        }
    }
}

/// The label under which a node is shown in the topology.
#[derive(Clone, Copy, Debug, PartialEq, Eq, Structural)]
pub enum NodeLabel {
    Drone(DroneKind),
    ChatClient,
    BrowserClient,
    ChatServer,
    MediaServer,
    TextServer,
}

pub open spec fn node_label_name(l: NodeLabel) -> Seq<char> {
    match l {
        NodeLabel::Drone(kind) => drone_name(kind),
        NodeLabel::ChatClient => "Chat client"@,
        NodeLabel::BrowserClient => "Browser client"@,
        NodeLabel::ChatServer => "Chat server"@,
        NodeLabel::MediaServer => "Media server"@,
        NodeLabel::TextServer => "Text server"@,
    }
}

impl NodeLabel {
    /// The text of this label.
    pub fn as_str(&self) -> (r: &'static str)
        ensures
            r@ == node_label_name(*self),
    {
        match self {
            NodeLabel::Drone(kind) => kind.name(),
            NodeLabel::ChatClient => "Chat client",
            NodeLabel::BrowserClient => "Browser client",
            NodeLabel::ChatServer => "Chat server",
            NodeLabel::MediaServer => "Media server",
            NodeLabel::TextServer => "Text server",
        }
    }
}

pub open spec fn client_type_of(kind: ClientKind) -> NodeType {
    match kind {
        ClientKind::Chat => NodeType::ChatClient,
        ClientKind::Browser => NodeType::BrowserClient,
    }
}

pub open spec fn client_label_of(kind: ClientKind) -> NodeLabel {
    match kind {
        ClientKind::Chat => NodeLabel::ChatClient,
        ClientKind::Browser => NodeLabel::BrowserClient,
    }
}

pub open spec fn server_type_of(kind: ServerKind) -> NodeType {
    match kind {
        ServerKind::Chat => NodeType::ChatServer,
        ServerKind::Media => NodeType::MediaServer,
        ServerKind::Text => NodeType::TextServer,
    }
}

pub open spec fn server_label_of(kind: ServerKind) -> NodeLabel {
    match kind {
        ServerKind::Chat => NodeLabel::ChatServer,
        ServerKind::Media => NodeLabel::MediaServer,
        ServerKind::Text => NodeLabel::TextServer,
    }
}

impl ClientKind {
    /// The node type under which this client is recorded.
    pub fn node_type(&self) -> (r: NodeType)
        ensures
            r == client_type_of(*self),
    {
        match self {
            ClientKind::Chat => NodeType::ChatClient,
            ClientKind::Browser => NodeType::BrowserClient,
        }
    }

    /// The label under which this client is shown.
    pub fn label(&self) -> (r: NodeLabel)
        ensures
            r == client_label_of(*self),
    {
        match self {
            ClientKind::Chat => NodeLabel::ChatClient,
            ClientKind::Browser => NodeLabel::BrowserClient,
        }
    }
}

impl ServerKind {
    /// The node type under which this server is recorded.
    pub fn node_type(&self) -> (r: NodeType)
        ensures
            r == server_type_of(*self),
    {
        match self {
            ServerKind::Chat => NodeType::ChatServer,
            ServerKind::Media => NodeType::MediaServer,
            ServerKind::Text => NodeType::TextServer,
        }
    }

    /// The label under which this server is shown.
    pub fn label(&self) -> (r: NodeLabel)
        ensures
            r == server_label_of(*self),
    {
        match self {
            ServerKind::Chat => NodeLabel::ChatServer,
            ServerKind::Media => NodeLabel::MediaServer,
            ServerKind::Text => NodeLabel::TextServer,
        }
    }
}

/// Every client runs the chat client exactly when its id is even, and the
/// browser client exactly when it is odd.
pub proof fn lemma_client_kind_by_parity(id: u8)
    ensures
        client_kind_of(id) == ClientKind::Chat <==> id % 2 == 0,
        client_kind_of(id) == ClientKind::Browser <==> id % 2 == 1,
{
}

/// Every server runs the chat server exactly when its id leaves the remainder
/// 0 when divided by 3, the media server exactly for the remainder 1, and the
/// text server exactly for the remainder 2.
pub proof fn lemma_server_kind_by_remainder(id: u8)
    ensures
        server_kind_of(id) == ServerKind::Chat <==> id % 3 == 0,
        server_kind_of(id) == ServerKind::Media <==> id % 3 == 1,
        server_kind_of(id) == ServerKind::Text <==> id % 3 == 2,
{
}

/// The implementations handed out in turn are eight distinct ones: every
/// implementation but Lockheed Rustin, each exactly once.
pub proof fn lemma_active_kinds_distinct_and_complete()
    ensures
        active_kinds().len() == 8,
        active_kinds().no_duplicates(),
        forall|k: DroneKind| k != DroneKind::LockheedRustin <==> #[trigger] active_kinds().contains(k),
{
    let s = active_kinds();
    assert(s[0] == DroneKind::CppEnjoyers && s[1] == DroneKind::GetDroned && s[2]
        == DroneKind::Rusteze && s[3] == DroneKind::DrOne && s[4] == DroneKind::RustDoIt && s[5]
        == DroneKind::RustBusters && s[6] == DroneKind::Rusty && s[7] == DroneKind::DRONE);
    assert forall|k: DroneKind| k != DroneKind::LockheedRustin <==> #[trigger] s.contains(k) by {
        match k {
            DroneKind::CppEnjoyers => assert(s[0] == k),
            DroneKind::GetDroned => assert(s[1] == k),
            DroneKind::Rusteze => assert(s[2] == k),
            DroneKind::DrOne => assert(s[3] == k),
            DroneKind::RustDoIt => assert(s[4] == k),
            DroneKind::RustBusters => assert(s[5] == k),
            DroneKind::Rusty => assert(s[6] == k),
            DroneKind::DRONE => assert(s[7] == k),
            DroneKind::LockheedRustin => {},
        }
    }
}

} // verus!
