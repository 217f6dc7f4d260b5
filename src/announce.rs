//! What an announce request says, whatever protocol carried it.
use vstd::prelude::*;

use crate::addr::IpAddress;

verus! {

/// The transport event of an announce.
#[derive(Debug, Clone, Copy, PartialEq, Eq, Structural)]
pub enum Event {
    /// A regular announce, made without an event (BEP 3 calls it `empty`).
    Empty,
    Completed,
    Started,
    Stopped,
    /// The peer stops downloading but stays in the swarm; it counts as a seeder
    /// when peers are selected.
    Paused,
}

/// A structured announce request.
#[derive(Debug, Clone, Copy)]
pub struct AnnounceParams {
    /// The torrent.
    pub info_hash: [u8; 20],
    /// The self-assigned id of the announcing peer.
    pub peer_id: [u8; 20],
    /// The port on which the peer accepts connections.
    pub port: u16,
    /// The address that the request came from, as the transport saw it.
    pub remote_ip: IpAddress,
    /// The address that the peer declares for itself. Never to be trusted by
    /// default.
    pub unsafe_ip: Option<IpAddress>,
    pub uploaded: i64,
    pub downloaded: i64,
    /// The number of bytes that the peer still has to download.
    pub left: i64,
    pub event: Event,
    /// The number of peers wanted; negative lets the tracker decide.
    pub num_want: i32,
    /// A key that proves the peer's identity when its address changes.
    pub key: Option<u32>,
    /// The wall-clock second at which the request arrived.
    pub time: u64,
}

} // verus!
