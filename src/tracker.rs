//! The tracker engine: every swarm, keyed by info hash, and the rules that
//! hold across them.
use vstd::prelude::*;

use crate::addr::{bytes_eq, spec_is_local, IpAddress};
use crate::announce::{AnnounceParams, Event};
use crate::config::TrackerConfig;
use crate::error::Error;
use crate::swarm::{
    apply_completions, apply_peers, candidates, count_leechers, count_seeders, fresh_peers,
    identity_ok, index_of, is_drawn_from, lemma_find_from, Peer, Swarm,
};

verus! {

/// The most peers that one announce reply can carry.
pub const MAX_NUM_WANT: usize = 256;

/// The parameters of a query that the announce parser did not recognise, for
/// an extension to read.
pub type ExtensionParams = Vec<(Vec<u8>, Vec<u8>)>;

/// The view of extension parameters: decoded key/value pairs, in order.
pub open spec fn params_view(p: ExtensionParams) -> Seq<(Seq<u8>, Seq<u8>)> {
    p@.map_values(|kv: (Vec<u8>, Vec<u8>)| (kv.0@, kv.1@))
}

/// A strategy that the tracker consults on every announce, after its own
/// checks: it may reject the announce with an error of its own.
pub trait TrackerExtension {
    /// What the extension decides of `announce`, with the parameters that the
    /// tracker did not recognise and the peer's record, if it is known.
    spec fn spec_validate(&self, announce: AnnounceParams, params: Seq<(Seq<u8>, Seq<u8>)>, peer: Option<Peer>) -> Result<(), Error>;

    fn validate(&self, announce: &AnnounceParams, params: &ExtensionParams, peer: Option<Peer>) -> (r: Result<(), Error>)
        ensures
            r == self.spec_validate(*announce, params_view(*params), peer),
    ;
}

/// The extension that accepts every announce.
#[derive(Debug, Clone, Copy)]
pub struct NoExtension;

impl TrackerExtension for NoExtension {
    open spec fn spec_validate(&self, announce: AnnounceParams, params: Seq<(Seq<u8>, Seq<u8>)>, peer: Option<Peer>) -> Result<(), Error> {
        Ok(())
    }

    fn validate(&self, announce: &AnnounceParams, params: &ExtensionParams, peer: Option<Peer>) -> (r: Result<(), Error>) {
        Ok(())
    }
}

/// A swarm as contracts see it: its peers and its completion count (the
/// seeder and leecher counts follow from the peers).
pub struct SwarmState {
    pub peers: Seq<Peer>,
    pub completions: u64,
}

/// The state of a swarm that is not tracked yet.
pub open spec fn empty_state() -> SwarmState {
    SwarmState { peers: seq![], completions: 0 }
}

/// Whether the tracker takes the address that `a` declares for itself.
pub open spec fn is_trusted(c: TrackerConfig, remote: IpAddress) -> bool {
    (c.trust_ip_param_if_local && spec_is_local(remote)) || c.unsafe_trust_ip_param
}

/// The address recorded for the announce `a`: the declared one where the
/// policy trusts it, else the one the transport saw.
pub open spec fn effective_ip(c: TrackerConfig, a: AnnounceParams) -> IpAddress {
    match a.unsafe_ip {
        Some(ip) => if is_trusted(c, a.remote_ip) {
            ip
        } else {
            a.remote_ip
        },
        None => a.remote_ip,
    }
}

/// The number of peers that an announce asks for, after the tracker's limits.
pub open spec fn wanted(c: TrackerConfig, num_want: i32) -> int {
    let n = if num_want < 0 {
        c.default_num_want
    } else if num_want > c.max_num_want {
        c.max_num_want
    } else {
        num_want
    };
    if n < 0 {
        0
    } else if n > MAX_NUM_WANT {
        MAX_NUM_WANT as int
    } else {
        n as int
    }
}

/// Whether the requester of `a` counts as a seeder when peers are selected.
pub open spec fn is_seeding(a: AnnounceParams) -> bool {
    a.left == 0 || a.event == Event::Paused
}

/// No two entries of `t` are for the same torrent.
pub open spec fn unique_hashes(t: Seq<(Seq<u8>, SwarmState)>) -> bool {
    forall|i: int, j: int| 0 <= i < t.len() && 0 <= j < t.len() && i != j ==> t[i].0 != t[j].0
}

/// The index of the torrent `h` in `t`, or -1.
pub open spec fn torrent_index(t: Seq<(Seq<u8>, SwarmState)>, h: Seq<u8>) -> int
    decreases t.len(),
{
    if t.len() == 0 {
        -1
    } else if t.last().0 == h {
        t.len() - 1
    } else {
        torrent_index(t.drop_last(), h)
    }
}

/// The swarm of `h` in `t`, empty where `h` is not tracked.
pub open spec fn swarm_of(t: Seq<(Seq<u8>, SwarmState)>, h: Seq<u8>) -> SwarmState {
    let i = torrent_index(t, h);
    if i >= 0 {
        t[i].1
    } else {
        empty_state()
    }
}

/// The torrents after the announce `a` from `ip` was applied.
pub open spec fn announced(t: Seq<(Seq<u8>, SwarmState)>, a: AnnounceParams, ip: IpAddress) -> Seq<
    (Seq<u8>, SwarmState),
> {
    let i = torrent_index(t, a.info_hash@);
    let s = swarm_of(t, a.info_hash@);
    let s2 = SwarmState {
        peers: apply_peers(s.peers, a, ip),
        completions: apply_completions(s.completions, a),
    };
    if i >= 0 {
        t.update(i, (a.info_hash@, s2))
    } else {
        t.push((a.info_hash@, s2))
    }
}

/// The record of the announcing peer in its swarm, if it is known.
pub open spec fn known_peer(s: SwarmState, a: AnnounceParams) -> Option<Peer> {
    let j = index_of(s.peers, a.peer_id@);
    if j >= 0 {
        Some(s.peers[j])
    } else {
        None
    }
}

/// Whether the announcing peer is known and announced again before
/// `min_interval` passed: it then gets no peers.
pub open spec fn too_soon(c: TrackerConfig, s: SwarmState, a: AnnounceParams) -> bool {
    match known_peer(s, a) {
        Some(p) => (a.time as int) - (p.last_announce as int) < c.min_interval as int,
        None => false,
    }
}

/// Whether the reply to `a` carries counts only.
pub open spec fn counts_only(c: TrackerConfig, s: SwarmState, a: AnnounceParams) -> bool {
    too_soon(c, s, a) || a.num_want == 0 || a.event == Event::Stopped
}

/// The error, if any, with which the tracker rejects `a`, given what the
/// extension decides.
pub open spec fn announce_error(
    c: TrackerConfig,
    t: Seq<(Seq<u8>, SwarmState)>,
    a: AnnounceParams,
    ext: Result<(), Error>,
) -> Option<Error> {
    let s = swarm_of(t, a.info_hash@);
    if a.port < 1024 {
        Some(Error::InvalidPort)
    } else if torrent_index(t, a.info_hash@) < 0 && !c.track_unknown_torrents {
        Some(Error::TorrentNotFound)
    } else if known_peer(s, a) is Some && !identity_ok(
        known_peer(s, a).unwrap(),
        effective_ip(c, a),
        a.key,
        c.deny_all_ip_changes,
    ) {
        Some(Error::IpAddressChanged)
    } else {
        match ext {
            Err(e) => Some(e),
            Ok(()) => None,
        }
    }
}

/// The counts that a scrape reports for `h`: seeders, leechers and
/// completions, all zero where `h` is not tracked.
pub open spec fn scrape_counts(t: Seq<(Seq<u8>, SwarmState)>, h: Seq<u8>) -> (u64, u64, u64) {
    let s = swarm_of(t, h);
    (count_seeders(s.peers) as u64, count_leechers(s.peers) as u64, s.completions)
}

/// The eviction threshold, in seconds, that the configuration sets.
pub open spec fn eviction_threshold(c: TrackerConfig) -> u64 {
    if c.max_interval < 0 {
        0
    } else {
        c.max_interval as u64
    }
}

/// The torrents after every peer that has not announced for `threshold`
/// seconds at `now` was removed, and every swarm left empty with it.
pub open spec fn swept(t: Seq<(Seq<u8>, SwarmState)>, now: u64, threshold: u64) -> Seq<
    (Seq<u8>, SwarmState),
>
    decreases t.len(),
{
    if t.len() == 0 {
        seq![]
    } else {
        let rest = swept(t.drop_last(), now, threshold);
        let f = fresh_peers(t.last().1.peers, now, threshold);
        if f.len() == 0 {
            rest
        } else {
            rest.push((t.last().0, SwarmState { peers: f, completions: t.last().1.completions }))
        }
    }
}

pub proof fn lemma_torrent_index(t: Seq<(Seq<u8>, SwarmState)>, h: Seq<u8>)
    ensures
        -1 <= torrent_index(t, h) < t.len(),
        torrent_index(t, h) >= 0 ==> t[torrent_index(t, h)].0 == h,
        torrent_index(t, h) < 0 ==> forall|j: int| 0 <= j < t.len() ==> t[j].0 != h,
    decreases t.len(),
{
    if t.len() > 0 && t.last().0 != h {
        lemma_torrent_index(t.drop_last(), h);
        if torrent_index(t, h) < 0 {
            assert forall|j: int| 0 <= j < t.len() implies t[j].0 != h by {
                if j < t.len() - 1 {
                    assert(t[j] == t.drop_last()[j]);
                } else {
                    assert(t[j] == t.last());
                }
            }
        }
    }
}

/// The tracker: the swarm of every tracked torrent and the configuration.
pub struct Tracker<E: TrackerExtension> {
    extension: E,
    config: TrackerConfig,
    hashes: Vec<[u8; 20]>,
    swarms: Vec<Swarm>,
}

impl Tracker<NoExtension> {
    /// A tracker without extension.
    pub fn new(config: TrackerConfig) -> (r: Self)
        ensures
            r.wf(),
            r.torrents() == Seq::<(Seq<u8>, SwarmState)>::empty(),
            r.config() == config,
    {
        Self::with_extension(NoExtension, config)
    }
}

impl<E: TrackerExtension> Tracker<E> {
    /// The tracked torrents, each with its swarm, in the order in which they
    /// were first announced.
    pub closed spec fn torrents(&self) -> Seq<(Seq<u8>, SwarmState)> {
        Seq::new(
            self.swarms@.len(),
            |i: int| (self.hashes@[i]@, SwarmState {
                peers: self.swarms@[i].peers(),
                completions: self.swarms@[i].completions(),
            }),
        )
    }

    pub closed spec fn config(&self) -> TrackerConfig {
        self.config
    }

    pub closed spec fn extension(&self) -> E {
        self.extension
    }

    /// Every swarm is well formed, and no torrent is tracked twice.
    pub closed spec fn wf(&self) -> bool {
        &&& self.hashes@.len() == self.swarms@.len()
        &&& unique_hashes(self.torrents())
        &&& forall|i: int| 0 <= i < self.swarms@.len() ==> (#[trigger] self.swarms@[i]).wf()
    }

    /// A well-formed tracker tracks each torrent once.
    pub proof fn lemma_unique_torrents(&self)
        requires
            self.wf(),
        ensures
            unique_hashes(self.torrents()),
    {
    }

    /// A tracker that consults `extension` on every announce.
    pub fn with_extension(extension: E, config: TrackerConfig) -> (r: Self)
        ensures
            r.wf(),
            r.torrents() == Seq::<(Seq<u8>, SwarmState)>::empty(),
            r.config() == config,
            r.extension() == extension,
    {
        let r = Tracker { extension, config, hashes: Vec::new(), swarms: Vec::new() };
        assert(r.torrents() =~= Seq::<(Seq<u8>, SwarmState)>::empty());
        r
    }

    /// The interval that clients are told to wait between announces.
    pub fn get_interval(&self) -> (r: i32)
        ensures
            r == self.config().interval,
    {
        self.config.interval
    }

    /// Whether the tracker takes the address that a peer declares for itself
    /// when the request comes from `remote_ip`.
    pub fn is_trusted(&self, remote_ip: &IpAddress) -> (r: bool)
        ensures
            r == is_trusted(self.config(), *remote_ip),
    {
        (self.config.trust_ip_param_if_local && remote_ip.is_local()) || self.config.unsafe_trust_ip_param
    }

    /// The index of the torrent `info_hash`.
    fn find(&self, info_hash: &[u8; 20]) -> (r: Option<usize>)
        requires
            self.wf(),
        ensures
            match r {
                Some(i) => torrent_index(self.torrents(), info_hash@) == i as int,
                None => torrent_index(self.torrents(), info_hash@) < 0,
            },
    {
        let ghost t = self.torrents();
        proof {
            lemma_torrent_index(t, info_hash@);
        }
        let mut i = self.hashes.len();
        assert(t.subrange(0, i as int) =~= t);
        while i > 0
            invariant
                i <= self.hashes@.len() == self.swarms@.len() == t.len(),
                t == self.torrents(),
                torrent_index(t, info_hash@) == torrent_index(t.subrange(0, i as int), info_hash@),
            decreases i,
        {
            proof {
                assert(t.subrange(0, i as int).drop_last() =~= t.subrange(0, i - 1));
                assert(t.subrange(0, i as int).last() == t[i - 1]);
            }
            if bytes_eq(self.hashes[i - 1].as_slice(), info_hash.as_slice()) {
                return Some(i - 1);
            }
            i = i - 1;
        }
        None
    }

    /// The number of peers that an announce asks for, after the limits.
    pub fn num_wanted(&self, num_want: i32) -> (r: usize)
        ensures
            r as int == wanted(self.config(), num_want),
    {
        let n = if num_want < 0 {
            self.config.default_num_want
        } else if num_want > self.config.max_num_want {
            self.config.max_num_want
        } else {
            num_want
        };
        if n < 0 {
            0
        } else if n as usize > MAX_NUM_WANT {
            MAX_NUM_WANT
        } else {
            n as usize
        }
    }

    /// Handles an announce: checks it, draws peers for the reply and records
    /// it. Returns the seeder and leecher counts from before the announce and
    /// the endpoints drawn.
    pub fn announce(&mut self, params: &AnnounceParams, ext_params: &ExtensionParams) -> (r: Result<(u64, u64, Vec<(IpAddress, u16)>), Error>)
        requires
            old(self).wf(),
        ensures
            final(self).wf(),
            final(self).config() == old(self).config(),
            final(self).extension() == old(self).extension(),
            ({
                let c = old(self).config();
                let t = old(self).torrents();
                let s = swarm_of(t, params.info_hash@);
                let ip = effective_ip(c, *params);
                let ext = old(self).extension().spec_validate(
                    *params,
                    params_view(*ext_params),
                    known_peer(s, *params),
                );
                match announce_error(c, t, *params, ext) {
                    Some(e) => r == Err::<(u64, u64, Vec<(IpAddress, u16)>), Error>(e)
                        && final(self).torrents() == t,
                    None => r is Ok && ({
                        let (seeders, leechers, peers) = r.unwrap();
                        let cand = candidates(s.peers, params.peer_id@, ip.spec_is_v4(), is_seeding(*params));
                        &&& seeders == count_seeders(s.peers)
                        &&& leechers == count_leechers(s.peers)
                        &&& peers@.len() == (if counts_only(c, s, *params) {
                            0
                        } else if wanted(c, params.num_want) < cand.len() {
                            wanted(c, params.num_want)
                        } else {
                            cand.len() as int
                        })
                        &&& is_drawn_from(peers@, cand)
                        &&& final(self).torrents() == announced(t, *params, ip)
                    }),
                }
            }),
    {
        let ghost t = self.torrents();
        if params.port < 1024 {
            return Err(Error::InvalidPort);
        }
        let ip = match params.unsafe_ip {
            Some(declared) => if self.is_trusted(&params.remote_ip) {
                declared
            } else {
                params.remote_ip
            },
            None => params.remote_ip,
        };
        let found = self.find(&params.info_hash);
        proof {
            lemma_torrent_index(t, params.info_hash@);
        }
        let i = match found {
            Some(i) => i,
            None => {
                if !self.config.track_unknown_torrents {
                    return Err(Error::TorrentNotFound);
                }
                self.hashes.push(params.info_hash);
                self.swarms.push(Swarm::new());
                let i = self.swarms.len() - 1;
                assert(self.torrents() =~= t.push((params.info_hash@, empty_state())));
                i
            },
        };
        let ghost t1 = self.torrents();
        let ghost s = swarm_of(t, params.info_hash@);
        assert(t1[i as int].1 == s);
        assert(self.swarms@[i as int].wf());
        proof {
            lemma_find_from(s.peers, params.peer_id@, 0);
        }
        let peer = self.swarms[i].peer(&params.peer_id);
        let checked = self.swarms[i].validate(
            &params.peer_id,
            &ip,
            params.key,
            self.config.deny_all_ip_changes,
        );
        let outcome = match checked {
            Err(e) => Err(e),
            Ok(()) => self.extension.validate(params, ext_params, peer),
        };
        if let Err(e) = outcome {
            if found.is_none() {
                self.hashes.pop();
                self.swarms.pop();
                assert(self.torrents() =~= t);
            }
            return Err(e);
        }
        let soon = match peer {
            Some(p) => (params.time as i128) - (p.last_announce as i128) < self.config.min_interval as i128,
            None => false,
        };
        let seeding = params.left == 0 || params.event == Event::Paused;
        let peers = if soon || params.num_want == 0 || params.event == Event::Stopped {
            let v: Vec<(IpAddress, u16)> = Vec::new();
            assert(crate::swarm::drawn_by(
                v@,
                candidates(s.peers, params.peer_id@, ip.spec_is_v4(), seeding),
                Seq::<usize>::empty(),
            ));
            v
        } else {
            let n = self.num_wanted(params.num_want);
            self.swarms[i].select(&params.peer_id, &ip, seeding, n)
        };
        let seeders = self.swarms[i].complete();
        let leechers = self.swarms[i].incomplete();
        self.swarms[i].announce(params, ip);
        proof {
            assert(self.torrents() =~= announced(t, *params, ip)) by {
                if found.is_none() {
                    assert(announced(t, *params, ip) =~= t1.update(i as int, announced(t, *params, ip)[i as int]));
                }
            }
        }
        Ok((seeders, leechers, peers))
    }

    /// The seeder, leecher and completion counts of each torrent of
    /// `info_hashes`, in order; zeros for a torrent that is not tracked.
    pub fn scrape(&self, info_hashes: &[[u8; 20]]) -> (r: Vec<(u64, u64, u64)>)
        requires
            self.wf(),
        ensures
            r@.len() == info_hashes@.len(),
            forall|k: int|
                0 <= k < r@.len() ==> r@[k] == scrape_counts(self.torrents(), #[trigger] info_hashes@[k]@),
    {
        let mut out: Vec<(u64, u64, u64)> = Vec::new();
        let mut k: usize = 0;
        while k < info_hashes.len()
            invariant
                self.wf(),
                k <= info_hashes@.len(),
                out@.len() == k,
                forall|m: int|
                    0 <= m < k ==> out@[m] == scrape_counts(self.torrents(), #[trigger] info_hashes@[m]@),
            decreases info_hashes@.len() - k,
        {
            proof {
                lemma_torrent_index(self.torrents(), info_hashes@[k as int]@);
            }
            let counts = match self.find(&info_hashes[k]) {
                Some(i) => {
                    assert(self.swarms@[i as int].wf());
                    (self.swarms[i].complete(), self.swarms[i].incomplete(), self.swarms[i].downloaded())
                },
                None => (0, 0, 0),
            };
            out.push(counts);
            k = k + 1;
        }
        out
    }

    /// Removes every peer that has not announced for `max_interval` seconds
    /// at `now`, and every swarm that this leaves empty.
    pub fn evict(&mut self, now: u64)
        requires
            old(self).wf(),
        ensures
            final(self).wf(),
            final(self).config() == old(self).config(),
            final(self).extension() == old(self).extension(),
            final(self).torrents() == swept(old(self).torrents(), now, eviction_threshold(old(self).config())),
    {
        let threshold: u64 = if self.config.max_interval < 0 {
            0
        } else {
            self.config.max_interval as u64
        };
        let ghost t = self.torrents();
        let ghost mut j: int = 0;
        let mut i: usize = 0;
        assert(swept(t.subrange(0, 0), now, threshold) + t.subrange(0, t.len() as int) =~= t);
        while i < self.swarms.len()
            invariant
                self.wf(),
                self.config == old(self).config,
                self.extension == old(self).extension,
                0 <= j <= t.len(),
                i <= self.swarms@.len(),
                self.torrents() == swept(t.subrange(0, j), now, threshold) + t.subrange(j, t.len() as int),
                i == swept(t.subrange(0, j), now, threshold).len(),
            decreases self.swarms@.len() - i,
        {
            let ghost before = self.torrents();
            let ghost w = swept(t.subrange(0, j), now, threshold);
            proof {
                assert(before[i as int] == t[j]);
                assert(t.subrange(0, j + 1).drop_last() =~= t.subrange(0, j));
                assert(t.subrange(0, j + 1).last() == t[j]);
                assert(self.swarms@[i as int].wf());
            }
            let empty = self.swarms[i].evict(now, threshold);
            if empty {
                self.hashes.remove(i);
                self.swarms.remove(i);
                proof {
                    assert(self.torrents() =~= before.remove(i as int));
                    assert(before.remove(i as int) =~= w + t.subrange(j + 1, t.len() as int));
                }
            } else {
                proof {
                    let st = (t[j].0, SwarmState { peers: fresh_peers(t[j].1.peers, now, threshold), completions: t[j].1.completions });
                    assert(self.torrents() =~= before.update(i as int, st));
                    assert(self.torrents() =~= w.push(
                        (t[j].0, SwarmState { peers: fresh_peers(t[j].1.peers, now, threshold), completions: t[j].1.completions }),
                    ) + t.subrange(j + 1, t.len() as int));
                }
                i = i + 1;
            }
            proof {
                j = j + 1;
            }
        }
        proof {
            if j < t.len() {
                assert(self.torrents().len() > i);
            }
            assert(t.subrange(0, j) =~= t);
            assert(self.torrents() =~= swept(t, now, threshold));
        }
    }
}

} // verus!
