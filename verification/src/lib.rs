use vstd::prelude::*;

pub mod home_client;
pub mod home_server;
pub mod ip_common;
pub mod ip_manager;
pub mod ip_server;
pub mod ipv4;
pub mod mdns;
pub mod network_scanner;
pub mod server;
pub mod services;
pub mod text;
pub mod wol;

verus! {

} // verus!
