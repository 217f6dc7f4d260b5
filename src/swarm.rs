//! The peers of one torrent, with their counters.
use vstd::prelude::*;

use crate::addr::{bytes_eq, IpAddress};
use crate::announce::{AnnounceParams, Event};
use crate::error::Error;
use crate::sampling::sample_indices;

verus! {

/// What the tracker knows of one peer of a swarm.
#[derive(Debug, Clone, Copy)]
pub struct Peer {
    pub peer_id: [u8; 20],
    pub downloaded: i64,
    pub uploaded: i64,
    /// The number of bytes that the peer still has to download.
    pub left: i64,
    /// Set once the peer announced that it paused.
    pub is_partial_seeder: bool,
    /// The IPv4 address of the peer, where it announced over IPv4.
    pub ipv4: Option<[u8; 4]>,
    /// The IPv6 address of the peer, or its IPv4 address mapped into IPv6.
    pub ipv6: [u8; 16],
    pub port: u16,
    pub key: Option<u32>,
    /// The wall-clock second of the peer's last announce.
    pub last_announce: u64,
}

impl Peer {
    /// Whether the peer counts as a seeder when peers are selected.
    pub open spec fn spec_is_seeder(self) -> bool {
        self.left == 0 || self.is_partial_seeder
    }

    /// Whether the peer is a leecher that a seeder may be handed: it has
    /// bytes left to download and has not paused.
    pub open spec fn spec_is_leecher(self) -> bool {
        self.left > 0 && !self.is_partial_seeder
    }

    /// Whether the peer is a leecher that a seeder may be handed.
    pub fn is_leecher(&self) -> (r: bool)
        ensures
            r == self.spec_is_leecher(),
    {
        self.left > 0 && !self.is_partial_seeder
    }

    /// Whether the peer counts as a seeder when peers are selected.
    pub fn is_seeder(&self) -> (r: bool)
        ensures
            r == self.spec_is_seeder(),
    {
        self.left == 0 || self.is_partial_seeder
    }
}

/// The number of peers of `s` that have nothing left to download (`seeders`)
/// or something (`!seeders`).
pub open spec fn count_by(s: Seq<Peer>, seeders: bool) -> nat
    decreases s.len(),
{
    if s.len() == 0 {
        0
    } else {
        count_by(s.drop_last(), seeders) + (if (s.last().left == 0) == seeders {
            1nat
        } else {
            0nat
        })
    }
}

/// The number of seeders of `s`: peers with nothing left to download.
pub open spec fn count_seeders(s: Seq<Peer>) -> nat {
    count_by(s, true)
}

/// The number of leechers of `s`: peers with bytes left to download.
pub open spec fn count_leechers(s: Seq<Peer>) -> nat {
    count_by(s, false)
}

/// No two peers of `s` share an id.
pub open spec fn unique_ids(s: Seq<Peer>) -> bool {
    forall|i: int, j: int| 0 <= i < s.len() && 0 <= j < s.len() && i != j ==> s[i].peer_id@ != s[j].peer_id@
}

/// The first index from `i` on of the peer with id `id`, or -1.
pub open spec fn find_from(s: Seq<Peer>, id: Seq<u8>, i: int) -> int
    decreases s.len() - i,
{
    if i < 0 || i >= s.len() {
        -1
    } else if s[i].peer_id@ == id {
        i
    } else {
        find_from(s, id, i + 1)
    }
}

/// The index of the peer with id `id` in `s`, or -1.
pub open spec fn index_of(s: Seq<Peer>, id: Seq<u8>) -> int {
    find_from(s, id, 0)
}

/// The mapped IPv6 form of an IPv4 address, as an array.
pub open spec fn spec_mapped(v: [u8; 4]) -> [u8; 16] {
    [0u8, 0, 0, 0, 0, 0, 0, 0, 0, 0, 0xff, 0xff, v[0], v[1], v[2], v[3]]
}

/// The record of a peer that announces for the first time from `ip`.
pub open spec fn spec_new_peer(a: AnnounceParams, ip: IpAddress) -> Peer {
    Peer {
        peer_id: a.peer_id,
        downloaded: a.downloaded,
        uploaded: a.uploaded,
        left: a.left,
        is_partial_seeder: a.event == Event::Paused,
        ipv4: match ip {
            IpAddress::V4(v) => Some(v),
            IpAddress::V6(_) => None,
        },
        ipv6: match ip {
            IpAddress::V4(v) => spec_mapped(v),
            IpAddress::V6(v) => v,
        },
        port: a.port,
        key: a.key,
        last_announce: a.time,
    }
}

/// The record `p` after a further announce from `ip`.
pub open spec fn spec_updated_peer(p: Peer, a: AnnounceParams, ip: IpAddress) -> Peer {
    Peer {
        peer_id: p.peer_id,
        downloaded: a.downloaded,
        uploaded: a.uploaded,
        left: a.left,
        is_partial_seeder: p.is_partial_seeder || a.event == Event::Paused,
        ipv4: match ip {
            IpAddress::V4(v) => Some(v),
            IpAddress::V6(_) => p.ipv4,
        },
        ipv6: match ip {
            IpAddress::V4(_) => p.ipv6,
            IpAddress::V6(v) => v,
        },
        port: a.port,
        key: a.key,
        last_announce: a.time,
    }
}

/// The peers of a swarm after the announce `a` from `ip`: a stopped peer
/// leaves, a known one is updated in place, a new one is added at the end.
pub open spec fn apply_peers(s: Seq<Peer>, a: AnnounceParams, ip: IpAddress) -> Seq<Peer> {
    let i = index_of(s, a.peer_id@);
    if a.event == Event::Stopped {
        if i >= 0 {
            s.remove(i)
        } else {
            s
        }
    } else if i >= 0 {
        s.update(i, spec_updated_peer(s[i], a, ip))
    } else {
        s.push(spec_new_peer(a, ip))
    }
}

/// The completion count after the announce `a` (it saturates).
pub open spec fn apply_completions(c: u64, a: AnnounceParams) -> u64 {
    if a.event == Event::Completed && c < u64::MAX {
        (c + 1) as u64
    } else {
        c
    }
}

/// Whether `ip` is an address that the tracker holds for `p`.
pub open spec fn spec_match_ip(ip: IpAddress, p: Peer) -> bool {
    match ip {
        IpAddress::V4(a) => p.ipv4 == Some(a),
        IpAddress::V6(a) => p.ipv6 == a,
    }
}

/// Whether an announce from `ip` with `key` may speak for `p`: its address is
/// unchanged, or (unless all changes are denied) it carries the key that `p`
/// registered.
pub open spec fn identity_ok(p: Peer, ip: IpAddress, key: Option<u32>, deny_all: bool) -> bool {
    spec_match_ip(ip, p) || (!deny_all && key is Some && key == p.key)
}

/// Whether `p` may be handed to the requester `id`: not itself, only a
/// leecher to a seeder, and reachable over IPv4 by an IPv4 requester.
pub open spec fn eligible(p: Peer, id: Seq<u8>, v4: bool, seeding: bool) -> bool {
    p.peer_id@ != id && (!seeding || p.spec_is_leecher()) && (!v4 || p.ipv4 is Some)
}

/// The endpoint of `p` in the family of the requester.
pub open spec fn peer_address(p: Peer, v4: bool) -> (IpAddress, u16) {
    if v4 {
        (IpAddress::V4(p.ipv4.unwrap()), p.port)
    } else {
        (IpAddress::V6(p.ipv6), p.port)
    }
}

/// The endpoints of the peers of `s` that may be handed to the requester, in
/// the order of `s`.
pub open spec fn candidates(s: Seq<Peer>, id: Seq<u8>, v4: bool, seeding: bool) -> Seq<
    (IpAddress, u16),
>
    decreases s.len(),
{
    if s.len() == 0 {
        seq![]
    } else {
        let c = candidates(s.drop_last(), id, v4, seeding);
        if eligible(s.last(), id, v4, seeding) {
            c.push(peer_address(s.last(), v4))
        } else {
            c
        }
    }
}

/// `ix` picks `r` out of `c`: `r[k]` is `c[ix[k]]`, and no position is
/// picked twice.
pub open spec fn drawn_by<T>(r: Seq<T>, c: Seq<T>, ix: Seq<usize>) -> bool {
    &&& ix.len() == r.len()
    &&& ix.no_duplicates()
    &&& forall|k: int| 0 <= k < ix.len() ==> #[trigger] ix[k] < c.len() && r[k] == c[ix[k] as int]
}

/// `r` is drawn from `c`: each of its items is an item of `c`, no position of
/// `c` being used twice.
pub open spec fn is_drawn_from<T>(r: Seq<T>, c: Seq<T>) -> bool {
    exists|ix: Seq<usize>| drawn_by(r, c, ix)
}

/// Whether `p` has not announced for `threshold` seconds at time `now`.
pub open spec fn expired(p: Peer, now: u64, threshold: u64) -> bool {
    p.last_announce + threshold <= now
}

/// The peers of `s` that have not expired, in order.
pub open spec fn fresh_peers(s: Seq<Peer>, now: u64, threshold: u64) -> Seq<Peer>
    decreases s.len(),
{
    if s.len() == 0 {
        seq![]
    } else {
        let f = fresh_peers(s.drop_last(), now, threshold);
        if expired(s.last(), now, threshold) {
            f
        } else {
            f.push(s.last())
        }
    }
}

pub proof fn lemma_count_total(s: Seq<Peer>)
    ensures
        count_seeders(s) + count_leechers(s) == s.len(),
    decreases s.len(),
{
    if s.len() > 0 {
        lemma_count_total(s.drop_last());
    }
}

pub proof fn lemma_count_update(s: Seq<Peer>, i: int, p: Peer, b: bool)
    requires
        0 <= i < s.len(),
    ensures
        count_by(s.update(i, p), b) + (if (s[i].left == 0) == b {
            1int
        } else {
            0int
        }) == count_by(s, b) + (if (p.left == 0) == b {
            1int
        } else {
            0int
        }),
    decreases s.len(),
{
    if i == s.len() - 1 {
        assert(s.update(i, p).drop_last() =~= s.drop_last());
    } else {
        assert(s.update(i, p).drop_last() =~= s.drop_last().update(i, p));
        lemma_count_update(s.drop_last(), i, p, b);
    }
}

pub proof fn lemma_count_remove(s: Seq<Peer>, i: int, b: bool)
    requires
        0 <= i < s.len(),
    ensures
        count_by(s.remove(i), b) + (if (s[i].left == 0) == b {
            1int
        } else {
            0int
        }) == count_by(s, b),
    decreases s.len(),
{
    if i == s.len() - 1 {
        assert(s.remove(i) =~= s.drop_last());
    } else {
        assert(s.remove(i).drop_last() =~= s.drop_last().remove(i));
        assert(s.remove(i).last() == s.last());
        lemma_count_remove(s.drop_last(), i, b);
    }
}

pub proof fn lemma_count_push(s: Seq<Peer>, p: Peer, b: bool)
    ensures
        count_by(s.push(p), b) == count_by(s, b) + (if (p.left == 0) == b {
            1nat
        } else {
            0nat
        }),
{
    assert(s.push(p).drop_last() =~= s);
}

pub proof fn lemma_find_from(s: Seq<Peer>, id: Seq<u8>, i: int)
    requires
        0 <= i,
    ensures
        find_from(s, id, i) >= 0 ==> i <= find_from(s, id, i) < s.len() && s[find_from(
            s,
            id,
            i,
        )].peer_id@ == id,
        find_from(s, id, i) < 0 ==> forall|j: int| i <= j < s.len() ==> s[j].peer_id@ != id,
        find_from(s, id, i) >= -1,
    decreases s.len() - i,
{
    if i < s.len() && s[i].peer_id@ != id {
        lemma_find_from(s, id, i + 1);
    }
}

pub proof fn lemma_unique_remove(s: Seq<Peer>, i: int)
    requires
        0 <= i < s.len(),
        unique_ids(s),
    ensures
        unique_ids(s.remove(i)),
{
    let r = s.remove(i);
    assert forall|a: int, b: int| 0 <= a < r.len() && 0 <= b < r.len() && a != b implies r[a].peer_id@
        != r[b].peer_id@ by {
        let a2 = if a < i {
            a
        } else {
            a + 1
        };
        let b2 = if b < i {
            b
        } else {
            b + 1
        };
        assert(r[a] == s[a2]);
        assert(r[b] == s[b2]);
    }
}

/// Every endpoint in the candidates of `s` belongs to an eligible peer of `s`.
pub proof fn lemma_candidates_sound(s: Seq<Peer>, id: Seq<u8>, v4: bool, seeding: bool, k: int)
    requires
        0 <= k < candidates(s, id, v4, seeding).len(),
    ensures
        exists|j: int|
            0 <= j < s.len() && eligible(s[j], id, v4, seeding) && #[trigger] candidates(
                s,
                id,
                v4,
                seeding,
            )[k] == peer_address(s[j], v4),
    decreases s.len(),
{
    let c = candidates(s.drop_last(), id, v4, seeding);
    if k < c.len() {
        lemma_candidates_sound(s.drop_last(), id, v4, seeding, k);
        let j = choose|j: int|
            0 <= j < s.drop_last().len() && eligible(s.drop_last()[j], id, v4, seeding)
                && #[trigger] candidates(s.drop_last(), id, v4, seeding)[k] == peer_address(
                s.drop_last()[j],
                v4,
            );
        assert(s[j] == s.drop_last()[j]);
    } else {
        assert(s[s.len() - 1] == s.last());
    }
}

/// In-memory store of the peers of one torrent.
#[derive(Debug)]
pub struct Swarm {
    complete: u64,
    incomplete: u64,
    downloaded: u64,
    peers: Vec<Peer>,
}

impl Swarm {
    /// The seeder counter.
    pub closed spec fn seeders(&self) -> u64 {
        self.complete
    }

    /// The leecher counter.
    pub closed spec fn leechers(&self) -> u64 {
        self.incomplete
    }

    /// The number of completion events seen over the swarm's lifetime.
    pub closed spec fn completions(&self) -> u64 {
        self.downloaded
    }

    /// The peers of the swarm.
    pub closed spec fn peers(&self) -> Seq<Peer> {
        self.peers@
    }

    /// The counters agree with the peers, and peer ids are unique.
    pub open spec fn wf(&self) -> bool {
        &&& unique_ids(self.peers())
        &&& self.seeders() == count_seeders(self.peers())
        &&& self.leechers() == count_leechers(self.peers())
    }

    /// An empty swarm.
    pub fn new() -> (r: Self)
        ensures
            r.wf(),
            r.peers() == Seq::<Peer>::empty(),
            r.completions() == 0,
    {
        Swarm { complete: 0, incomplete: 0, downloaded: 0, peers: Vec::new() }
    }

    /// The number of seeders.
    pub fn complete(&self) -> (r: u64)
        ensures
            r == self.seeders(),
    {
        self.complete
    }

    /// The number of leechers.
    pub fn incomplete(&self) -> (r: u64)
        ensures
            r == self.leechers(),
    {
        self.incomplete
    }

    /// The number of completion events.
    pub fn downloaded(&self) -> (r: u64)
        ensures
            r == self.completions(),
    {
        self.downloaded
    }

    /// Whether the swarm has no peers.
    pub fn is_empty(&self) -> (r: bool)
        ensures
            r == (self.peers().len() == 0),
    {
        self.peers.len() == 0
    }

    /// The index of the peer with id `peer_id`.
    pub fn find(&self, peer_id: &[u8; 20]) -> (r: Option<usize>)
        ensures
            match r {
                Some(i) => index_of(self.peers(), peer_id@) == i as int,
                None => index_of(self.peers(), peer_id@) < 0,
            },
    {
        let mut i: usize = 0;
        while i < self.peers.len()
            invariant
                i <= self.peers@.len(),
                index_of(self.peers@, peer_id@) == find_from(self.peers@, peer_id@, i as int),
            decreases self.peers@.len() - i,
        {
            if bytes_eq(self.peers[i].peer_id.as_slice(), peer_id.as_slice()) {
                return Some(i);
            }
            i = i + 1;
        }
        None
    }

    /// The record of the peer with id `peer_id`.
    pub fn peer(&self, peer_id: &[u8; 20]) -> (r: Option<Peer>)
        ensures
            r == (if index_of(self.peers(), peer_id@) >= 0 {
                Some(self.peers()[index_of(self.peers(), peer_id@)])
            } else {
                None::<Peer>
            }),
    {
        proof {
            lemma_find_from(self.peers(), peer_id@, 0);
        }
        match self.find(peer_id) {
            Some(i) => {
                let p = self.peers[i];
                assert(p == self.peers@[i as int]);
                Some(p)
            },
            None => None,
        }
    }

    /// Checks that an announce from `ip` with `key` may speak for the peer
    /// `peer_id`, if it is known: `IpAddressChanged` otherwise.
    pub fn validate(&self, peer_id: &[u8; 20], ip: &IpAddress, key: Option<u32>, deny_all_ip_changes: bool) -> (r: Result<(), Error>)
        ensures
            r == (if index_of(self.peers(), peer_id@) >= 0 && !identity_ok(
                self.peers()[index_of(self.peers(), peer_id@)],
                *ip,
                key,
                deny_all_ip_changes,
            ) {
                Err::<(), Error>(Error::IpAddressChanged)
            } else {
                Ok(())
            }),
    {
        match self.peer(peer_id) {
            Some(p) => {
                let same = match_ip(ip, &p);
                let key_ok = match (key, p.key) {
                    (Some(a), Some(b)) => a == b,
                    _ => false,
                };
                if !same && (deny_all_ip_changes || !key_ok) {
                    Err(Error::IpAddressChanged)
                } else {
                    Ok(())
                }
            },
            None => Ok(()),
        }
    }

    /// The endpoints of the peers that may be handed to the requester.
    pub fn candidates(&self, peer_id: &[u8; 20], v4: bool, seeding: bool) -> (r: Vec<(IpAddress, u16)>)
        ensures
            r@ == candidates(self.peers(), peer_id@, v4, seeding),
    {
        let mut out: Vec<(IpAddress, u16)> = Vec::new();
        let mut i: usize = 0;
        while i < self.peers.len()
            invariant
                i <= self.peers@.len(),
                out@ == candidates(self.peers@.subrange(0, i as int), peer_id@, v4, seeding),
            decreases self.peers@.len() - i,
        {
            let p = self.peers[i];
            proof {
                assert(self.peers@.subrange(0, i + 1).drop_last() =~= self.peers@.subrange(0, i as int));
            }
            let own = bytes_eq(p.peer_id.as_slice(), peer_id.as_slice());
            if !own && (!seeding || p.is_leecher()) {
                if v4 {
                    if let Some(a) = p.ipv4 {
                        out.push((IpAddress::V4(a), p.port));
                    }
                } else {
                    out.push((IpAddress::V6(p.ipv6), p.port));
                }
            }
            i = i + 1;
        }
        assert(self.peers@.subrange(0, i as int) =~= self.peers@);
        out
    }

    /// A uniformly random sample of `min(amount, n)` of the `n` endpoints that
    /// may be handed to the requester `peer_id`: never the requester itself,
    /// only leechers to a seeder, and only IPv4 peers to an IPv4 requester.
    pub fn select(&self, peer_id: &[u8; 20], ip: &IpAddress, seeding: bool, amount: usize) -> (r: Vec<(IpAddress, u16)>)
        ensures
            ({
                let c = candidates(self.peers(), peer_id@, ip.spec_is_v4(), seeding);
                &&& r@.len() == (if amount < c.len() {
                    amount as int
                } else {
                    c.len() as int
                })
                &&& is_drawn_from(r@, c)
            }),
    {
        let c = self.candidates(peer_id, ip.is_ipv4(), seeding);
        let idx = sample_indices(c.len(), amount);
        let mut out: Vec<(IpAddress, u16)> = Vec::new();
        let mut k: usize = 0;
        while k < idx.len()
            invariant
                k <= idx@.len(),
                out@.len() == k,
                forall|m: int| 0 <= m < idx@.len() ==> idx@[m] < c@.len(),
                forall|m: int| 0 <= m < k ==> out@[m] == c@[idx@[m] as int],
            decreases idx@.len() - k,
        {
            out.push(c[idx[k]]);
            k = k + 1;
        }
        assert(drawn_by(out@, c@, idx@));
        out
    }

    /// Applies the announce `params` from `ip`: a completion is counted, a
    /// stopped peer leaves, any other announce inserts or updates the peer.
    pub fn announce(&mut self, params: &AnnounceParams, ip: IpAddress)
        requires
            old(self).wf(),
        ensures
            final(self).wf(),
            final(self).peers() == apply_peers(old(self).peers(), *params, ip),
            final(self).completions() == apply_completions(old(self).completions(), *params),
    {
        let ghost s = self.peers@;
        let _len = self.peers.len();
        proof {
            lemma_find_from(s, params.peer_id@, 0);
            lemma_count_total(s);
        }
        if params.event == Event::Completed && self.downloaded < u64::MAX {
            self.downloaded = self.downloaded + 1;
        }
        let found = self.find(&params.peer_id);
        if params.event == Event::Stopped {
            if let Some(i) = found {
                let p = self.peers.remove(i);
                proof {
                    lemma_count_remove(s, i as int, true);
                    lemma_count_remove(s, i as int, false);
                    lemma_unique_remove(s, i as int);
                }
                if p.left == 0 {
                    self.complete = self.complete - 1;
                } else {
                    self.incomplete = self.incomplete - 1;
                }
            }
            return ;
        }
        match found {
            Some(i) => {
                let old_p = self.peers[i];
                let p = updated_peer(&old_p, params, &ip);
                proof {
                    lemma_count_update(s, i as int, p, true);
                    lemma_count_update(s, i as int, p, false);
                    lemma_count_remove(s, i as int, true);
                    lemma_count_remove(s, i as int, false);
                }
                if old_p.left == 0 {
                    self.complete = self.complete - 1;
                } else {
                    self.incomplete = self.incomplete - 1;
                }
                if p.left == 0 {
                    self.complete = self.complete + 1;
                } else {
                    self.incomplete = self.incomplete + 1;
                }
                self.peers.set(i, p);
                proof {
                    assert(unique_ids(self.peers@)) by {
                        assert forall|a: int, b: int|
                            0 <= a < self.peers@.len() && 0 <= b < self.peers@.len() && a != b implies self.peers@[a].peer_id@
                            != self.peers@[b].peer_id@ by {
                            assert(s[a].peer_id@ != s[b].peer_id@);
                        }
                    }
                }
            },
            None => {
                let p = new_peer(params, &ip);
                self.peers.push(p);
                let n = self.peers.len();
                proof {
                    lemma_count_push(s, p, true);
                    lemma_count_push(s, p, false);
                    lemma_count_total(self.peers@);
                    assert(unique_ids(self.peers@)) by {
                        assert forall|a: int, b: int|
                            0 <= a < self.peers@.len() && 0 <= b < self.peers@.len() && a != b implies self.peers@[a].peer_id@
                            != self.peers@[b].peer_id@ by {
                            if a < s.len() && b < s.len() {
                                assert(s[a].peer_id@ != s[b].peer_id@);
                            }
                        }
                    }
                }
                if p.left == 0 {
                    self.complete = self.complete + 1;
                } else {
                    self.incomplete = self.incomplete + 1;
                }
            },
        }
    }

    /// Removes every peer whose last announce is `threshold` seconds or more
    /// before `now`; returns whether the swarm is then empty.
    pub fn evict(&mut self, now: u64, threshold: u64) -> (r: bool)
        requires
            old(self).wf(),
        ensures
            final(self).wf(),
            final(self).peers() == fresh_peers(old(self).peers(), now, threshold),
            final(self).completions() == old(self).completions(),
            r == (final(self).peers().len() == 0),
    {
        let ghost s = self.peers@;
        let ghost mut j: int = 0;
        let mut i: usize = 0;
        while i < self.peers.len()
            invariant
                0 <= j <= s.len(),
                i <= self.peers@.len(),
                self.peers@ == fresh_peers(s.subrange(0, j), now, threshold) + s.subrange(j, s.len() as int),
                i == fresh_peers(s.subrange(0, j), now, threshold).len(),
                self.wf(),
                self.downloaded == old(self).downloaded,
            decreases self.peers@.len() - i,
        {
            let ghost f = fresh_peers(s.subrange(0, j), now, threshold);
            let p = self.peers[i];
            proof {
                assert(self.peers@[i as int] == s[j]);
                assert(s.subrange(0, j + 1).drop_last() =~= s.subrange(0, j));
                assert(s.subrange(0, j + 1).last() == s[j]);
            }
            let stale = now >= p.last_announce && now - p.last_announce >= threshold;
            if stale {
                let ghost before = self.peers@;
                self.peers.remove(i);
                proof {
                    lemma_count_remove(before, i as int, true);
                    lemma_count_remove(before, i as int, false);
                    lemma_unique_remove(before, i as int);
                    assert(before.remove(i as int) =~= f + s.subrange(j + 1, s.len() as int));
                }
                if p.left == 0 {
                    self.complete = self.complete - 1;
                } else {
                    self.incomplete = self.incomplete - 1;
                }
            } else {
                proof {
                    assert(self.peers@ =~= f.push(s[j]) + s.subrange(j + 1, s.len() as int));
                }
                i = i + 1;
            }
            proof {
                j = j + 1;
            }
        }
        proof {
            if j < s.len() {
                assert(self.peers@.len() > i);
            }
            assert(s.subrange(0, j) =~= s);
            assert(s.subrange(j, s.len() as int) =~= seq![]);
            assert(self.peers@ =~= fresh_peers(s, now, threshold));
        }
        self.peers.len() == 0
    }
}

/// Whether `ip` is an address that the tracker holds for `p`.
pub fn match_ip(ip: &IpAddress, p: &Peer) -> (r: bool)
    ensures
        r == spec_match_ip(*ip, *p),
{
    match ip {
        IpAddress::V4(a) => match p.ipv4 {
            Some(b) => {
                let r = bytes_eq(a.as_slice(), b.as_slice());
                proof {
                    if r {
                        assert(*a =~= b);
                    }
                }
                r
            },
            None => false,
        },
        IpAddress::V6(a) => {
            let r = bytes_eq(a.as_slice(), p.ipv6.as_slice());
            proof {
                if r {
                    assert(*a =~= p.ipv6);
                }
            }
            r
        },
    }
}

fn mapped(v: &[u8; 4]) -> (r: [u8; 16])
    ensures
        r == spec_mapped(*v),
{
    [0u8, 0, 0, 0, 0, 0, 0, 0, 0, 0, 0xff, 0xff, v[0], v[1], v[2], v[3]]
}

fn new_peer(a: &AnnounceParams, ip: &IpAddress) -> (r: Peer)
    ensures
        r == spec_new_peer(*a, *ip),
{
    Peer {
        peer_id: a.peer_id,
        downloaded: a.downloaded,
        uploaded: a.uploaded,
        left: a.left,
        is_partial_seeder: a.event == Event::Paused,
        ipv4: match ip {
            IpAddress::V4(v) => Some(*v),
            IpAddress::V6(_) => None,
        },
        ipv6: match ip {
            IpAddress::V4(v) => mapped(v),
            IpAddress::V6(v) => *v,
        },
        port: a.port,
        key: a.key,
        last_announce: a.time,
    }
}

fn updated_peer(p: &Peer, a: &AnnounceParams, ip: &IpAddress) -> (r: Peer)
    ensures
        r == spec_updated_peer(*p, *a, *ip),
{
    Peer {
        peer_id: p.peer_id,
        downloaded: a.downloaded,
        uploaded: a.uploaded,
        left: a.left,
        is_partial_seeder: p.is_partial_seeder || a.event == Event::Paused,
        ipv4: match ip {
            IpAddress::V4(v) => Some(*v),
            IpAddress::V6(_) => p.ipv4,
        },
        ipv6: match ip {
            IpAddress::V4(_) => p.ipv6,
            IpAddress::V6(v) => *v,
        },
        port: a.port,
        key: a.key,
        last_announce: a.time,
    }
}

} // verus!
