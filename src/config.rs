//! The tracker's knobs.
use vstd::prelude::*;

verus! {

/// The tracker section of the configuration.
#[derive(Debug, Clone, Copy)]
pub struct TrackerConfig {
    /// Seconds that clients should wait before announcing again.
    pub interval: i32,
    /// Seconds that clients should wait before asking for more peers; earlier
    /// announces are accepted but get an empty peer list.
    pub min_interval: i32,
    /// Seconds after which a silent peer is removed from its swarm.
    pub max_interval: i32,
    /// Number of peers handed out when the client lets the tracker decide.
    pub default_num_want: i32,
    /// Largest number of peers handed out.
    pub max_num_want: i32,
    /// Track torrents that are not yet known to the tracker.
    pub track_unknown_torrents: bool,
    /// Always trust the address that a peer declares for itself.
    pub unsafe_trust_ip_param: bool,
    /// Trust the address that a peer declares for itself when the request
    /// comes from a site-local address.
    pub trust_ip_param_if_local: bool,
    /// Reject every change of a peer's address, even with a matching key.
    pub deny_all_ip_changes: bool,
}

impl TrackerConfig {
    pub fn default_interval() -> (r: i32)
        ensures
            r == 900,
    {
        900
    }

    pub fn default_min_interval() -> (r: i32)
        ensures
            r == 60,
    {
        60
    }

    pub fn default_max_interval() -> (r: i32)
        ensures
            r == 1800,
    {
        1800
    }

    pub fn default_default_num_want() -> (r: i32)
        ensures
            r == 32,
    {
        32
    }

    pub fn default_max_num_want() -> (r: i32)
        ensures
            r == 128,
    {
        128
    }
}

impl Default for TrackerConfig {
    fn default() -> (r: Self)
        ensures
            r.interval == 900,
            r.min_interval == 60,
            r.max_interval == 1800,
            r.default_num_want == 32,
            r.max_num_want == 128,
            !r.track_unknown_torrents,
            !r.unsafe_trust_ip_param,
            !r.trust_ip_param_if_local,
            !r.deny_all_ip_changes,
    {
        TrackerConfig {
            interval: TrackerConfig::default_interval(),
            min_interval: TrackerConfig::default_min_interval(),
            max_interval: TrackerConfig::default_max_interval(),
            default_num_want: TrackerConfig::default_default_num_want(),
            max_num_want: TrackerConfig::default_max_num_want(),
            track_unknown_torrents: false,
            unsafe_trust_ip_param: false,
            trust_ip_param_if_local: false,
            deny_all_ip_changes: false,
        }
    }
}

} // verus!
