//! The UDP tracker protocol (BEP 15) with its URL-data extension (BEP 41).

pub mod connection;
pub mod extensions;
pub mod wire;
pub mod transaction;
