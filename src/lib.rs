//! A BitTorrent tracker engine: the UDP tracker protocol, an announce query
//! parser and an in-memory swarm store, with their behaviour stated as
//! contracts.

pub mod addr;
pub mod announce;
pub mod bytes;
pub mod config;
mod digest;
pub mod ed25519;
pub mod error;
pub mod laws;
pub mod numbers;
pub mod params;
pub mod query;
mod sampling;
pub mod swarm;
pub mod tracker;
pub mod udp;

pub use error::Error;
