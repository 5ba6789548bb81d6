//! Hierarchical subnet allocation and host accounting.
//!
//! The crate keeps a forest of networks related by CIDR containment, splits a
//! network into child blocks, keeps the available / used / free host counters
//! of every block consistent along the chain of enclosing networks, and drives
//! the occupancy state of the devices that sit on the addresses.

pub mod auth;
pub mod cidr;
pub mod cookie;
pub mod device;
pub mod error;
pub mod forest;
pub mod host_count;
mod ident;
pub mod ipam;
pub mod network;
pub mod patch;
pub mod power;
pub mod relocation;
pub mod request;
pub mod store;
pub mod subnet;
pub mod text;
pub mod user;
pub mod vlan;
