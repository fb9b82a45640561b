//! Decisions and bookkeeping of a controller that builds and drives a simulated
//! network of drones, clients and servers.
pub mod config;
pub mod nodes;
pub mod layout;
pub mod controller;
pub mod runnable;
