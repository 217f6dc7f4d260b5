//! Properties of the swarm store and the tracker that hold across
//! operations.
use vstd::prelude::*;

use crate::addr::IpAddress;
use crate::announce::{AnnounceParams, Event};
use crate::swarm::{
    apply_completions, apply_peers, candidates, count_leechers, count_seeders, drawn_by, eligible,
    find_from, index_of, is_drawn_from, lemma_candidates_sound, lemma_count_update, lemma_find_from,
    peer_address, spec_new_peer, spec_updated_peer, Peer, Swarm,
};
use crate::tracker::{announced, torrent_index, lemma_torrent_index, SwarmState};

verus! {

/// The seeder and leecher counts of a list of peers are the sizes of the
/// lists of peers with nothing left and with something left.
pub proof fn lemma_count_is_filter(s: Seq<Peer>)
    ensures
        count_seeders(s) == s.filter(|p: Peer| p.left == 0).len(),
        count_leechers(s) == s.filter(|p: Peer| p.left != 0).len(),
        (forall|i: int| 0 <= i < s.len() ==> #[trigger] s[i].left >= 0) ==> count_leechers(s)
            == s.filter(|p: Peer| p.left > 0).len(),
    decreases s.len(),
{
    reveal_with_fuel(Seq::filter, 1);
    if s.len() > 0 {
        lemma_count_is_filter(s.drop_last());
        if forall|i: int| 0 <= i < s.len() ==> #[trigger] s[i].left >= 0 {
            assert forall|i: int| 0 <= i < s.drop_last().len() implies #[trigger] s.drop_last()[i].left
                >= 0 by {
                assert(s.drop_last()[i] == s[i]);
            }
            assert(s.last() == s[s.len() - 1]);
        }
    }
}

/// In a well-formed swarm the seeder count is the number of peers with
/// nothing left to download, and the leecher count the number of the
/// others: of the peers with bytes left, where no peer reports a negative
/// amount.
pub proof fn lemma_swarm_counts(s: &Swarm)
    requires
        s.wf(),
    ensures
        s.seeders() == s.peers().filter(|p: Peer| p.left == 0).len(),
        s.leechers() == s.peers().filter(|p: Peer| p.left != 0).len(),
        (forall|i: int| 0 <= i < s.peers().len() ==> #[trigger] s.peers()[i].left >= 0)
            ==> s.leechers() == s.peers().filter(|p: Peer| p.left > 0).len(),
{
    lemma_count_is_filter(s.peers());
}

/// No announce lowers the completion count of a swarm.
pub proof fn lemma_completions_monotone(c: u64, a: AnnounceParams)
    ensures
        apply_completions(c, a) >= c,
{
}

/// No announce lowers the completion count of any tracked torrent, and a
/// torrent stays tracked.
pub proof fn lemma_tracker_completions_monotone(
    t: Seq<(Seq<u8>, SwarmState)>,
    a: AnnounceParams,
    ip: IpAddress,
    i: int,
)
    requires
        0 <= i < t.len(),
    ensures
        i < announced(t, a, ip).len(),
        announced(t, a, ip)[i].0 == t[i].0,
        announced(t, a, ip)[i].1.completions >= t[i].1.completions,
{
    lemma_torrent_index(t, a.info_hash@);
}

/// Every endpoint that a selection hands out belongs to a peer that is not
/// the requester, that is a leecher (bytes left, not paused) when the
/// requester seeds, and whose IPv4 address is handed out when the requester
/// uses IPv4.
pub proof fn lemma_selection_filters(
    s: Seq<Peer>,
    id: Seq<u8>,
    v4: bool,
    seeding: bool,
    r: Seq<(IpAddress, u16)>,
    k: int,
)
    requires
        is_drawn_from(r, candidates(s, id, v4, seeding)),
        0 <= k < r.len(),
    ensures
        exists|j: int|
            0 <= j < s.len() && #[trigger] s[j].peer_id@ != id && (seeding ==> s[j].left > 0 && !s[j].is_partial_seeder)
                && (v4 ==> s[j].ipv4 is Some && r[k] == (IpAddress::V4(s[j].ipv4.unwrap()), s[j].port))
                && (!v4 ==> r[k] == (IpAddress::V6(s[j].ipv6), s[j].port)),
{
    let c = candidates(s, id, v4, seeding);
    assert(is_drawn_from(r, c));
    let ix = choose|ix: Seq<usize>| drawn_by(r, c, ix);
    assert(drawn_by(r, c, ix));
    assert(ix[k] < c.len() && r[k] == c[ix[k] as int]);
    lemma_candidates_sound(s, id, v4, seeding, ix[k] as int);
    let j = choose|j: int|
        0 <= j < s.len() && eligible(s[j], id, v4, seeding) && #[trigger] candidates(
            s,
            id,
            v4,
            seeding,
        )[ix[k] as int] == peer_address(s[j], v4);
    assert(s[j].peer_id@ != id);
}

/// A stop from a peer that the swarm does not know changes neither its
/// peers nor its counters.
pub proof fn lemma_stop_unknown_is_noop(s: Seq<Peer>, c: u64, a: AnnounceParams, ip: IpAddress)
    requires
        a.event == Event::Stopped,
        index_of(s, a.peer_id@) < 0,
    ensures
        apply_peers(s, a, ip) == s,
        count_seeders(apply_peers(s, a, ip)) == count_seeders(s),
        count_leechers(apply_peers(s, a, ip)) == count_leechers(s),
        apply_completions(c, a) == c,
{
}

proof fn lemma_find_same_ids(s: Seq<Peer>, t: Seq<Peer>, id: Seq<u8>, i: int)
    requires
        s.len() == t.len(),
        forall|j: int| 0 <= j < s.len() ==> #[trigger] s[j].peer_id@ == t[j].peer_id@,
    ensures
        find_from(s, id, i) == find_from(t, id, i),
    decreases s.len() - i,
{
    if 0 <= i < s.len() && s[i].peer_id@ != id {
        lemma_find_same_ids(s, t, id, i + 1);
    }
}

proof fn lemma_find_push(s: Seq<Peer>, p: Peer, i: int)
    requires
        0 <= i <= s.len(),
        forall|j: int| i <= j < s.len() ==> #[trigger] s[j].peer_id@ != p.peer_id@,
    ensures
        find_from(s.push(p), p.peer_id@, i) == s.len(),
    decreases s.len() - i,
{
    if i < s.len() {
        assert(s.push(p)[i] == s[i]);
        lemma_find_push(s, p, i + 1);
    } else {
        assert(s.push(p)[i] == p);
    }
}

/// Announcing twice with the same fields and no event leaves the seeder and
/// leecher counts as the first announce left them.
pub proof fn lemma_repeat_announce_keeps_counts(s: Seq<Peer>, a: AnnounceParams, ip: IpAddress)
    requires
        a.event == Event::Empty,
    ensures
        count_seeders(apply_peers(apply_peers(s, a, ip), a, ip)) == count_seeders(apply_peers(s, a, ip)),
        count_leechers(apply_peers(apply_peers(s, a, ip), a, ip)) == count_leechers(apply_peers(s, a, ip)),
{
    let id = a.peer_id@;
    let s1 = apply_peers(s, a, ip);
    lemma_find_from(s, id, 0);
    let i0 = index_of(s, id);
    if i0 >= 0 {
        assert forall|j: int| 0 <= j < s.len() implies #[trigger] s[j].peer_id@ == s1[j].peer_id@ by {}
        lemma_find_same_ids(s, s1, id, 0);
    } else {
        let p = spec_new_peer(a, ip);
        assert(p.peer_id@ == id);
        lemma_find_push(s, p, 0);
    }
    let i1 = index_of(s1, id);
    assert(i1 >= 0 && s1[i1].left == a.left);
    let p2 = spec_updated_peer(s1[i1], a, ip);
    lemma_count_update(s1, i1, p2, true);
    lemma_count_update(s1, i1, p2, false);
}

} // verus!
